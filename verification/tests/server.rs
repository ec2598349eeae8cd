use dhcp_server::config::Configuration;
use dhcp_server::dhcp::{DHCPOption, DHCPOptionClass, DHCPPacket, HardwareType, MessageType};
use dhcp_server::server::{DHCPServer, HandlePacketError};
use dhcp_server::{IPAddress, MACAddress};

fn configuration(reserved: Vec<(MACAddress, IPAddress)>) -> Configuration {
    Configuration {
        lease_start_ip: IPAddress::new([10, 128, 0, 1]),
        lease_final_ip: IPAddress::new([10, 128, 0, 5]),
        gateway_ip: IPAddress::new([10, 128, 0, 254]),
        our_ip: IPAddress::new([10, 128, 0, 100]),
        subnet_mask: IPAddress::new([255, 255, 255, 0]),
        broadcast_address: IPAddress::new([10, 128, 0, 255]),
        dns: IPAddress::new([1, 1, 1, 1]),
        dns_alternative: IPAddress::new([8, 8, 8, 8]),
        reserved_ips: reserved,
        address_time: 172800,
        renewal_time: 86400,
        rebinding_time: 129600,
        offer_time: 30,
        log_limit: None,
    }
}

fn client_mac() -> MACAddress {
    MACAddress::new([0xAA, 0xBB, 0xCC, 0xDD, 0xEE, 0x01])
}

fn request_packet(
    subtype: u8,
    mac: MACAddress,
    ci: [u8; 4],
    gi: [u8; 4],
    extra: Vec<DHCPOption>,
) -> DHCPPacket {
    let mut chaddr = [0u8; 16];
    chaddr[..6].copy_from_slice(mac.as_slice());
    let mut options = vec![DHCPOption::new(DHCPOptionClass::DHCPMsgType, vec![subtype])];
    for option in extra {
        options.push(option);
    }
    DHCPPacket {
        message_type: MessageType::Request,
        hardware_type: HardwareType::Ethernet,
        hardware_address_length: 6,
        hops: 0,
        transaction_id: 0xDEADBEEF,
        seconds: 0,
        flags: 0,
        client_ip_address: IPAddress::new(ci),
        your_ip_address: IPAddress::new([0, 0, 0, 0]),
        server_ip_address: IPAddress::new([0, 0, 0, 0]),
        gateway_ip_address: IPAddress::new(gi),
        client_hardware_address: chaddr,
        options,
    }
}

fn option_value(p: &DHCPPacket, class: DHCPOptionClass) -> Vec<u8> {
    p.get_option(class).expect("option missing").clone()
}

#[test]
fn fresh_discover_yields_offer() {
    let mut server = DHCPServer::new(&configuration(Vec::new()));
    let discover = request_packet(1, client_mac(), [0, 0, 0, 0], [0, 0, 0, 0], Vec::new());

    let (offer, destination) = server.handle_packet(discover, 0).unwrap().unwrap();
    assert_eq!(offer.message_type, MessageType::Reply);
    assert_eq!(offer.transaction_id, 0xDEADBEEF);
    assert_eq!(offer.your_ip_address, IPAddress::new([10, 128, 0, 1]));
    assert_eq!(offer.server_ip_address, IPAddress::new([10, 128, 0, 100]));
    assert_eq!(option_value(&offer, DHCPOptionClass::DHCPMsgType), vec![2]);
    assert_eq!(option_value(&offer, DHCPOptionClass::AddressTime), vec![0x00, 0x02, 0xA3, 0x00]);
    assert_eq!(
        option_value(&offer, DHCPOptionClass::DHCPServerID),
        vec![10, 128, 0, 100]
    );
    // No relay and no client address: broadcast.
    assert!(destination.is_none());
}

#[test]
fn offer_carries_network_parameters_in_order() {
    let mut server = DHCPServer::new(&configuration(Vec::new()));
    let discover = request_packet(1, client_mac(), [0, 0, 0, 0], [0, 0, 0, 0], Vec::new());
    let (offer, _) = server.handle_packet(discover, 0).unwrap().unwrap();

    let classes: Vec<DHCPOptionClass> = offer.options.iter().map(|o| o.class).collect();
    assert_eq!(
        classes,
        vec![
            DHCPOptionClass::DHCPMsgType,
            DHCPOptionClass::DHCPServerID,
            DHCPOptionClass::AddressTime,
            DHCPOptionClass::RenewalTime,
            DHCPOptionClass::RebindingTime,
            DHCPOptionClass::SubnetMask,
            DHCPOptionClass::BroadcastAddress,
            DHCPOptionClass::Gateways,
            DHCPOptionClass::DomainServer,
            DHCPOptionClass::ClientID,
        ]
    );
    assert_eq!(option_value(&offer, DHCPOptionClass::DomainServer), vec![1, 1, 1, 1, 8, 8, 8, 8]);
    assert_eq!(
        option_value(&offer, DHCPOptionClass::ClientID),
        vec![1, 0xAA, 0xBB, 0xCC, 0xDD, 0xEE, 0x01]
    );
}

#[test]
fn request_accepting_the_offer_yields_ack() {
    let mut server = DHCPServer::new(&configuration(Vec::new()));
    let discover = request_packet(1, client_mac(), [0, 0, 0, 0], [0, 0, 0, 0], Vec::new());
    server.handle_packet(discover, 0).unwrap();

    let request = request_packet(
        3,
        client_mac(),
        [0, 0, 0, 0],
        [0, 0, 0, 0],
        vec![DHCPOption::new(DHCPOptionClass::AddressRequest, vec![10, 128, 0, 1])],
    );
    let (ack, _) = server.handle_packet(request, 1).unwrap().unwrap();
    assert_eq!(option_value(&ack, DHCPOptionClass::DHCPMsgType), vec![5]);
    assert_eq!(ack.your_ip_address, IPAddress::new([10, 128, 0, 1]));

    assert_eq!(
        server.leases.get_ip_address(client_mac()),
        Some(IPAddress::new([10, 128, 0, 1]))
    );
}

#[test]
fn request_for_wrong_address_yields_broadcast_nack() {
    let mut server = DHCPServer::new(&configuration(Vec::new()));
    let discover = request_packet(1, client_mac(), [0, 0, 0, 0], [0, 0, 0, 0], Vec::new());
    server.handle_packet(discover, 0).unwrap();

    let request = request_packet(
        3,
        client_mac(),
        [0, 0, 0, 0],
        [0, 0, 0, 0],
        vec![DHCPOption::new(DHCPOptionClass::AddressRequest, vec![10, 128, 0, 99])],
    );
    let (nack, destination) = server.handle_packet(request, 1).unwrap().unwrap();
    assert_eq!(option_value(&nack, DHCPOptionClass::DHCPMsgType), vec![6]);
    assert_eq!(nack.your_ip_address, IPAddress::new([0, 0, 0, 0]));
    assert_eq!(nack.server_ip_address, IPAddress::new([0, 0, 0, 0]));
    assert_eq!(nack.client_ip_address, IPAddress::new([0, 0, 0, 0]));
    assert!(destination.is_none());
    // The lease state is unchanged: nothing was committed.
    assert_eq!(server.leases.get_ip_address(client_mac()), None);
}

#[test]
fn reserved_mac_is_honored() {
    let reserved_mac = MACAddress::new([0xB8, 0x27, 0xEB, 0xBC, 0x3D, 0xF0]);
    let mut server = DHCPServer::new(&configuration(vec![(
        reserved_mac,
        IPAddress::new([10, 0, 0, 2]),
    )]));
    let discover = request_packet(1, reserved_mac, [0, 0, 0, 0], [0, 0, 0, 0], Vec::new());
    let (offer, _) = server.handle_packet(discover, 0).unwrap().unwrap();
    assert_eq!(offer.your_ip_address, IPAddress::new([10, 0, 0, 2]));
    // The dynamic pool was not consulted.
    assert_eq!(server.leases.current_leases().len(), 0);
    let next = request_packet(1, client_mac(), [0, 0, 0, 0], [0, 0, 0, 0], Vec::new());
    let (pool_offer, _) = server.handle_packet(next, 0).unwrap().unwrap();
    assert_eq!(pool_offer.your_ip_address, IPAddress::new([10, 128, 0, 1]));
}

#[test]
fn relayed_discover_is_answered_through_the_relay() {
    let mut server = DHCPServer::new(&configuration(Vec::new()));
    let discover = request_packet(1, client_mac(), [0, 0, 0, 0], [192, 0, 2, 1], Vec::new());
    let (offer, destination) = server.handle_packet(discover, 0).unwrap().unwrap();
    assert_eq!(offer.gateway_ip_address, IPAddress::new([192, 0, 2, 1]));
    let destination = destination.expect("relay reply must be unicast");
    assert_eq!(destination.ip, IPAddress::new([192, 0, 2, 1]));
    assert_eq!(destination.port, 67);
}

#[test]
fn release_frees_the_address() {
    let mut server = DHCPServer::new(&configuration(Vec::new()));
    let discover = request_packet(1, client_mac(), [0, 0, 0, 0], [0, 0, 0, 0], Vec::new());
    server.handle_packet(discover, 0).unwrap();
    let request = request_packet(
        3,
        client_mac(),
        [0, 0, 0, 0],
        [0, 0, 0, 0],
        vec![DHCPOption::new(DHCPOptionClass::AddressRequest, vec![10, 128, 0, 1])],
    );
    server.handle_packet(request, 1).unwrap();

    let release = request_packet(7, client_mac(), [10, 128, 0, 1], [0, 0, 0, 0], Vec::new());
    let response = server.handle_packet(release, 2).unwrap();
    assert!(response.is_none());
    assert_eq!(server.leases.get_ip_address(client_mac()), None);

    // Walk the rest of the pool: the freed address comes around again.
    for last in 2u8..=5 {
        let mac = MACAddress::new([0xAA, 0xBB, 0xCC, 0xDD, 0xEE, last]);
        let discover = request_packet(1, mac, [0, 0, 0, 0], [0, 0, 0, 0], Vec::new());
        let (offer, _) = server.handle_packet(discover, 2).unwrap().unwrap();
        assert_eq!(offer.your_ip_address, IPAddress::new([10, 128, 0, last]));
    }
    let mac = MACAddress::new([0xAA, 0xBB, 0xCC, 0xDD, 0xEE, 0x09]);
    let discover = request_packet(1, mac, [0, 0, 0, 0], [0, 0, 0, 0], Vec::new());
    let (offer, _) = server.handle_packet(discover, 2).unwrap().unwrap();
    assert_eq!(offer.your_ip_address, IPAddress::new([10, 128, 0, 1]));
}

#[test]
fn renew_by_ciaddr_yields_ack() {
    let mut server = DHCPServer::new(&configuration(Vec::new()));
    let discover = request_packet(1, client_mac(), [0, 0, 0, 0], [0, 0, 0, 0], Vec::new());
    server.handle_packet(discover, 0).unwrap();
    let request = request_packet(
        3,
        client_mac(),
        [0, 0, 0, 0],
        [0, 0, 0, 0],
        vec![DHCPOption::new(DHCPOptionClass::AddressRequest, vec![10, 128, 0, 1])],
    );
    server.handle_packet(request, 1).unwrap();

    // Renewal carries the address in ciaddr, without option 50.
    let renew = request_packet(3, client_mac(), [10, 128, 0, 1], [0, 0, 0, 0], Vec::new());
    let (ack, destination) = server.handle_packet(renew, 2).unwrap().unwrap();
    assert_eq!(option_value(&ack, DHCPOptionClass::DHCPMsgType), vec![5]);
    assert_eq!(ack.your_ip_address, IPAddress::new([10, 128, 0, 1]));
    // Unicast back to the client that renewed.
    let destination = destination.unwrap();
    assert_eq!(destination.ip, IPAddress::new([10, 128, 0, 1]));
    assert_eq!(destination.port, 68);
}

#[test]
fn renew_of_foreign_address_is_an_error() {
    let mut server = DHCPServer::new(&configuration(Vec::new()));
    let renew = request_packet(3, client_mac(), [10, 128, 0, 99], [0, 0, 0, 0], Vec::new());
    assert!(matches!(
        server.handle_packet(renew, 0),
        Err(HandlePacketError::InvalidRenewAddress)
    ));
}

#[test]
fn request_without_address_is_an_error() {
    let mut server = DHCPServer::new(&configuration(Vec::new()));
    let request = request_packet(3, client_mac(), [0, 0, 0, 0], [0, 0, 0, 0], Vec::new());
    assert!(matches!(
        server.handle_packet(request, 0),
        Err(HandlePacketError::NoRequestedIPInRequest)
    ));
}

#[test]
fn request_with_short_address_option_is_an_error() {
    let mut server = DHCPServer::new(&configuration(Vec::new()));
    let request = request_packet(
        3,
        client_mac(),
        [0, 0, 0, 0],
        [0, 0, 0, 0],
        vec![DHCPOption::new(DHCPOptionClass::AddressRequest, vec![10, 128])],
    );
    assert!(matches!(
        server.handle_packet(request, 0),
        Err(HandlePacketError::InvalidRequestedAddressLength)
    ));
}

#[test]
fn exhausted_pool_is_an_error() {
    let mut server = DHCPServer::new(&configuration(Vec::new()));
    for last in 1u8..=5 {
        let mac = MACAddress::new([0xAA, 0xBB, 0xCC, 0xDD, 0xEE, last]);
        let discover = request_packet(1, mac, [0, 0, 0, 0], [0, 0, 0, 0], Vec::new());
        assert!(server.handle_packet(discover, 0).unwrap().is_some());
    }
    let mac = MACAddress::new([0xAA, 0xBB, 0xCC, 0xDD, 0xEE, 0x09]);
    let discover = request_packet(1, mac, [0, 0, 0, 0], [0, 0, 0, 0], Vec::new());
    assert!(matches!(
        server.handle_packet(discover, 0),
        Err(HandlePacketError::NoIPAddressesAvailable)
    ));
    // Offers expire after thirty seconds; reclamation restores capacity.
    let discover = request_packet(1, mac, [0, 0, 0, 0], [0, 0, 0, 0], Vec::new());
    let (offer, _) = server.handle_packet(discover, 31).unwrap().unwrap();
    assert_eq!(offer.your_ip_address, IPAddress::new([10, 128, 0, 1]));
}

#[test]
fn decline_surfaces_an_error() {
    let mut server = DHCPServer::new(&configuration(Vec::new()));
    let decline = request_packet(4, client_mac(), [0, 0, 0, 0], [0, 0, 0, 0], Vec::new());
    assert!(matches!(
        server.handle_packet(decline, 0),
        Err(HandlePacketError::DeclineMessageRecieved)
    ));
}

#[test]
fn inform_is_answered_without_lease_times() {
    let mut server = DHCPServer::new(&configuration(Vec::new()));
    let inform = request_packet(8, client_mac(), [10, 0, 0, 7], [0, 0, 0, 0], Vec::new());
    let (ack, destination) = server.handle_packet(inform, 0).unwrap().unwrap();
    assert_eq!(option_value(&ack, DHCPOptionClass::DHCPMsgType), vec![5]);
    assert_eq!(ack.your_ip_address, IPAddress::new([0, 0, 0, 0]));
    assert!(ack.get_option(DHCPOptionClass::AddressTime).is_none());
    assert!(ack.get_option(DHCPOptionClass::RenewalTime).is_none());
    assert_eq!(option_value(&ack, DHCPOptionClass::SubnetMask), vec![255, 255, 255, 0]);
    let destination = destination.unwrap();
    assert_eq!(destination.ip, IPAddress::new([10, 0, 0, 7]));
    assert_eq!(destination.port, 68);
}

#[test]
fn reply_packets_are_ignored() {
    let mut server = DHCPServer::new(&configuration(Vec::new()));
    let mut reply = request_packet(1, client_mac(), [0, 0, 0, 0], [0, 0, 0, 0], Vec::new());
    reply.message_type = MessageType::Reply;
    assert!(server.handle_packet(reply, 0).unwrap().is_none());
}

#[test]
fn missing_message_type_is_an_error() {
    let mut server = DHCPServer::new(&configuration(Vec::new()));
    let mut packet = request_packet(1, client_mac(), [0, 0, 0, 0], [0, 0, 0, 0], Vec::new());
    packet.options = Vec::new();
    assert!(matches!(server.handle_packet(packet, 0), Err(HandlePacketError::NoMsgType)));
}

#[test]
fn empty_message_type_is_an_error() {
    let mut server = DHCPServer::new(&configuration(Vec::new()));
    let mut packet = request_packet(1, client_mac(), [0, 0, 0, 0], [0, 0, 0, 0], Vec::new());
    packet.options = vec![DHCPOption::new(DHCPOptionClass::DHCPMsgType, Vec::new())];
    assert!(matches!(server.handle_packet(packet, 0), Err(HandlePacketError::MalformedOption)));
}

#[test]
fn non_ethernet_hardware_is_rejected() {
    let mut server = DHCPServer::new(&configuration(Vec::new()));
    let mut packet = request_packet(1, client_mac(), [0, 0, 0, 0], [0, 0, 0, 0], Vec::new());
    packet.hardware_type = HardwareType::FrameRelay;
    assert!(matches!(
        server.handle_packet(packet, 0),
        Err(HandlePacketError::InvalidHardwareType(HardwareType::FrameRelay))
    ));

    let mut packet = request_packet(1, client_mac(), [0, 0, 0, 0], [0, 0, 0, 0], Vec::new());
    packet.hardware_address_length = 8;
    assert!(matches!(
        server.handle_packet(packet, 0),
        Err(HandlePacketError::InvalidHardwareAddressLength(8))
    ));
}

#[test]
fn unknown_subtype_is_ignored() {
    let mut server = DHCPServer::new(&configuration(Vec::new()));
    let packet = request_packet(9, client_mac(), [0, 0, 0, 0], [0, 0, 0, 0], Vec::new());
    assert!(server.handle_packet(packet, 0).unwrap().is_none());
}
