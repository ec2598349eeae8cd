use dhcp_server::dhcp::{DHCPOption, DHCPOptionClass, DHCPPacket, HardwareType, MessageType, PacketParseError, ParseOptionError};
use dhcp_server::IPAddress;

fn base_request(options: &[u8]) -> Vec<u8> {
    let mut b = vec![0u8; 240];
    b[0] = 1; // op: request
    b[1] = 1; // hardware type: Ethernet
    b[2] = 6; // hardware address length
    b[3] = 0; // hops
    b[4] = 0xDE;
    b[5] = 0xAD;
    b[6] = 0xBE;
    b[7] = 0xEF; // xid
    b[8] = 0;
    b[9] = 7; // seconds
    b[10] = 0x80;
    b[11] = 0; // flags
    // ciaddr 10.0.0.7
    b[12] = 10;
    b[15] = 7;
    // giaddr 192.0.2.1
    b[24] = 192;
    b[26] = 2;
    b[27] = 1;
    // chaddr
    b[28] = 0xAA;
    b[29] = 0xBB;
    b[30] = 0xCC;
    b[31] = 0xDD;
    b[32] = 0xEE;
    b[33] = 0x01;
    // magic cookie
    b[236] = 99;
    b[237] = 130;
    b[238] = 83;
    b[239] = 99;
    b.extend_from_slice(options);
    b
}

#[test]
fn parse_reads_header_fields() {
    let bytes = base_request(&[53, 1, 1, 255]);
    let p = DHCPPacket::parse(&bytes).unwrap();
    assert_eq!(p.message_type, MessageType::Request);
    assert_eq!(p.hardware_type, HardwareType::Ethernet);
    assert_eq!(p.hardware_address_length, 6);
    assert_eq!(p.hops, 0);
    assert_eq!(p.transaction_id, 0xDEADBEEF);
    assert_eq!(p.seconds, 7);
    assert_eq!(p.flags, 0x8000);
    assert_eq!(p.client_ip_address, IPAddress::new([10, 0, 0, 7]));
    assert_eq!(p.your_ip_address, IPAddress::new([0, 0, 0, 0]));
    assert_eq!(p.gateway_ip_address, IPAddress::new([192, 0, 2, 1]));
    assert_eq!(&p.client_hardware_address[0..6], &[0xAA, 0xBB, 0xCC, 0xDD, 0xEE, 0x01]);
    assert_eq!(p.options.len(), 1);
    assert_eq!(p.options[0].class, DHCPOptionClass::DHCPMsgType);
    assert_eq!(p.options[0].value, vec![1]);
}

#[test]
fn parse_collects_options_in_order() {
    let bytes = base_request(&[53, 1, 3, 50, 4, 10, 128, 0, 1, 61, 0, 255]);
    let p = DHCPPacket::parse(&bytes).unwrap();
    assert_eq!(p.options.len(), 3);
    assert_eq!(p.options[0].class, DHCPOptionClass::DHCPMsgType);
    assert_eq!(p.options[1].class, DHCPOptionClass::AddressRequest);
    assert_eq!(p.options[1].value, vec![10, 128, 0, 1]);
    assert_eq!(p.options[2].class, DHCPOptionClass::ClientID);
    assert_eq!(p.options[2].value, Vec::<u8>::new());
}

#[test]
fn parse_rejects_short_buffer() {
    let bytes = vec![0u8; 240];
    assert!(matches!(DHCPPacket::parse(&bytes), Err(PacketParseError::TooShort(240))));
}

#[test]
fn parse_rejects_bad_magic() {
    let mut bytes = base_request(&[255]);
    bytes[239] = 98;
    assert!(matches!(
        DHCPPacket::parse(&bytes),
        Err(PacketParseError::InvalidMagic([99, 130, 83, 98]))
    ));
}

#[test]
fn parse_rejects_missing_end() {
    let bytes = base_request(&[53, 1, 1]);
    assert!(matches!(DHCPPacket::parse(&bytes), Err(PacketParseError::NoEndOption)));
}

#[test]
fn parse_rejects_truncated_option_value() {
    let bytes = base_request(&[50, 4, 10, 128]);
    assert!(matches!(
        DHCPPacket::parse(&bytes),
        Err(PacketParseError::ParseOptionError(ParseOptionError::InvalidLength))
    ));
}

#[test]
fn parse_rejects_option_without_length() {
    let bytes = base_request(&[50]);
    assert!(matches!(
        DHCPPacket::parse(&bytes),
        Err(PacketParseError::ParseOptionError(ParseOptionError::MissingLength))
    ));
}

#[test]
fn parse_rejects_bad_op() {
    let mut bytes = base_request(&[255]);
    bytes[0] = 3;
    assert!(matches!(
        DHCPPacket::parse(&bytes),
        Err(PacketParseError::InvalidMessageType(3))
    ));
}

#[test]
fn generate_layout() {
    let mut p = DHCPPacket::new(
        0xDEADBEEF,
        0x8000,
        IPAddress::new([0, 0, 0, 0]),
        IPAddress::new([10, 128, 0, 1]),
        IPAddress::new([10, 128, 0, 100]),
        IPAddress::new([0, 0, 0, 0]),
        [0xAA, 0xBB, 0xCC, 0xDD, 0xEE, 0x01, 0, 0, 0, 0, 0, 0, 0, 0, 0, 0],
    );
    p.add_option(DHCPOptionClass::DHCPMsgType, &[2]);
    let bytes = p.generate();
    assert_eq!(bytes.len(), 240 + 3 + 1);
    assert_eq!(bytes[0], 2); // reply
    assert_eq!(bytes[1], 1); // Ethernet
    assert_eq!(bytes[2], 6);
    assert_eq!(&bytes[4..8], &[0xDE, 0xAD, 0xBE, 0xEF]);
    assert_eq!(&bytes[10..12], &[0x80, 0x00]);
    assert_eq!(&bytes[16..20], &[10, 128, 0, 1]);
    assert_eq!(&bytes[20..24], &[10, 128, 0, 100]);
    assert_eq!(&bytes[44..108], &[0u8; 64][..]); // sname region is zero
    assert_eq!(&bytes[236..240], &[99, 130, 83, 99]);
    assert_eq!(&bytes[240..243], &[53, 1, 2]);
    assert_eq!(bytes[243], 255); // End appended last
}

#[test]
fn encode_decode_round_trip() {
    let mut p = DHCPPacket::new(
        0x01020304,
        0,
        IPAddress::new([10, 0, 0, 7]),
        IPAddress::new([10, 128, 0, 1]),
        IPAddress::new([10, 128, 0, 100]),
        IPAddress::new([192, 0, 2, 1]),
        [0xB8, 0x27, 0xEB, 0xBC, 0x3D, 0xF0, 0, 0, 0, 0, 0, 0, 0, 0, 0, 0],
    );
    p.add_option(DHCPOptionClass::DHCPMsgType, &[5]);
    p.add_option(DHCPOptionClass::AddressTime, &[0, 2, 0xA3, 0]);
    p.add_option(DHCPOptionClass::DomainServer, &[1, 1, 1, 1, 8, 8, 8, 8]);
    p.add_option(DHCPOptionClass::Other(12), &[0x68, 0x6F, 0x73, 0x74]);

    let bytes = p.generate();
    let q = DHCPPacket::parse(&bytes).unwrap();

    assert_eq!(q.message_type, MessageType::Reply);
    assert_eq!(q.hardware_type, HardwareType::Ethernet);
    assert_eq!(q.hardware_address_length, 6);
    assert_eq!(q.transaction_id, 0x01020304);
    assert_eq!(q.client_ip_address, p.client_ip_address);
    assert_eq!(q.your_ip_address, p.your_ip_address);
    assert_eq!(q.server_ip_address, p.server_ip_address);
    assert_eq!(q.gateway_ip_address, p.gateway_ip_address);
    assert_eq!(q.client_hardware_address, p.client_hardware_address);
    assert_eq!(q.options.len(), 4);
    for (a, b) in q.options.iter().zip(p.options.iter()) {
        assert_eq!(a.class, b.class);
        assert_eq!(a.value, b.value);
    }
}

#[test]
fn option_codec() {
    let o = DHCPOption::parse(&[51, 4, 0, 2, 0xA3, 0, 9, 9]).unwrap();
    assert_eq!(o.class(), DHCPOptionClass::AddressTime);
    assert_eq!(o.value(), &[0, 2, 0xA3, 0]);
    assert_eq!(o.generate(), vec![51, 4, 0, 2, 0xA3, 0]);

    let end = DHCPOption::parse(&[255, 9, 9]).unwrap();
    assert_eq!(end.class(), DHCPOptionClass::End);
    assert_eq!(end.generate(), vec![255]);

    assert!(matches!(DHCPOption::parse(&[]), Err(ParseOptionError::MissingClass)));
}

#[test]
fn class_codes_round_trip() {
    for code in [1u8, 3, 6, 28, 50, 51, 53, 54, 58, 59, 61, 255, 99] {
        let class = DHCPOptionClass::parse(code);
        assert_eq!(class.generate(), code);
    }
    assert_eq!(DHCPOptionClass::parse(99), DHCPOptionClass::Other(99));
}

#[test]
fn hardware_type_codes() {
    assert!(matches!(HardwareType::parse(1), HardwareType::Ethernet));
    assert_eq!(HardwareType::Ethernet.generate(), 1);
    assert!(matches!(HardwareType::parse(19), HardwareType::AsynchronousTransmissionMode));
    assert!(matches!(HardwareType::parse(99), HardwareType::Other(99)));
    assert_eq!(HardwareType::Other(99).generate(), 99);
}

#[test]
fn message_type_codes() {
    assert_eq!(MessageType::parse(1), Some(MessageType::Request));
    assert_eq!(MessageType::parse(2), Some(MessageType::Reply));
    assert_eq!(MessageType::parse(0), None);
    assert_eq!(MessageType::Request.generate(), 1);
    assert_eq!(MessageType::Reply.generate(), 2);
}
