//! The protocol engine: one entry point that takes a parsed packet and
//! the current time, consults the reservation table and the lease
//! manager, and yields the response packet and its destination.

pub mod leases;

use crate::address::{ip_next, ip_num, ip_octets, zero_ip, IPAddress, MACAddress};
use crate::config::Configuration;
use crate::dhcp::hardware_type::HardwareType;
use crate::dhcp::message_type::MessageType;
use crate::dhcp::option::DHCPOptionClass;
use crate::dhcp::packet::{find_option, DHCPPacket, PacketV};
use crate::util::{u32_bytes, u32_to_slice};
use leases::{accept_ok_maps, first_free, keep_live, Leases};
use vstd::prelude::*;

verus! {

/// The UDP port the server listens on, and relays are addressed at.
pub const DHCP_SERVER_PORT: u16 = 67;

/// The UDP port clients listen on.
pub const DHCP_CLIENT_PORT: u16 = 68;

/// Where a response datagram is sent; `None` stands for the limited
/// broadcast on the local segment.
#[derive(Debug, Clone, Copy)]
pub struct Destination {
    pub ip: IPAddress,
    pub port: u16,
}

pub struct DHCPServer {
    pub leases: Leases,
    pub reserved: Vec<(MACAddress, IPAddress)>,
    pub our_ip: IPAddress,
    pub gateway_ip: IPAddress,
    pub subnet_mask: IPAddress,
    pub broadcast_address: IPAddress,
    pub dns: IPAddress,
    pub dns_alternative: IPAddress,
}

#[derive(Debug)]
pub enum HandlePacketError {
    MalformedOption,
    NoMsgType,
    InvalidHardwareType(HardwareType),
    InvalidHardwareAddressLength(u8),
    NoIPAddressesAvailable,
    InvalidRequestedAddressLength,
    NoRequestedIPInRequest,
    InvalidRenewAddress,
    DeclineMessageRecieved,
}

/// The reservation table of a vector of pairs, read as a map from MAC
/// octets to address octets; a repeated MAC keeps its last entry.
pub open spec fn reserved_entries(s: Seq<(MACAddress, IPAddress)>) -> Map<Seq<u8>, Seq<u8>>
    decreases s.len(),
{
    if s.len() == 0 {
        Map::empty()
    } else {
        reserved_entries(s.drop_last()).insert(s.last().0@, s.last().1@)
    }
}

/// No two entries of the table share a MAC.
pub open spec fn unique_macs(s: Seq<(MACAddress, IPAddress)>) -> bool {
    forall|i: int, j: int| 0 <= i < j < s.len() ==> (#[trigger] s[i]).0@ != (#[trigger] s[j]).0@
}

/// A MAC is reserved exactly when some entry carries it.
proof fn lemma_reserved_contains(s: Seq<(MACAddress, IPAddress)>, m: Seq<u8>)
    ensures
        reserved_entries(s).dom().contains(m) <==> exists|i: int|
            0 <= i < s.len() && (#[trigger] s[i]).0@ == m,
    decreases s.len(),
{
    if s.len() > 0 {
        lemma_reserved_contains(s.drop_last(), m);
        if reserved_entries(s).dom().contains(m) {
            if m == s.last().0@ {
                assert(s[s.len() - 1].0@ == m);
            } else {
                let i = choose|i: int|
                    0 <= i < s.drop_last().len() && (#[trigger] s.drop_last()[i]).0@ == m;
                assert(s[i].0@ == m);
            }
        }
        if exists|i: int| 0 <= i < s.len() && (#[trigger] s[i]).0@ == m {
            let i = choose|i: int| 0 <= i < s.len() && (#[trigger] s[i]).0@ == m;
            if i < s.len() - 1 {
                assert(s.drop_last()[i].0@ == m);
            }
        }
    }
}

/// With distinct MACs, the table holds each entry of the vector.
proof fn lemma_reserved_at(s: Seq<(MACAddress, IPAddress)>, i: int)
    requires
        unique_macs(s),
        0 <= i < s.len(),
    ensures
        reserved_entries(s).dom().contains(s[i].0@),
        reserved_entries(s)[s[i].0@] == s[i].1@,
    decreases s.len(),
{
    if i < s.len() - 1 {
        assert forall|a: int, b: int| 0 <= a < b < s.drop_last().len() implies (
        #[trigger] s.drop_last()[a]).0@ != (#[trigger] s.drop_last()[b]).0@ by {
            assert(s.drop_last()[a] == s[a]);
            assert(s.drop_last()[b] == s[b]);
        }
        lemma_reserved_at(s.drop_last(), i);
        assert(s.drop_last()[i] == s[i]);
        assert(s[i].0@ != s.last().0@);
    }
}

/// Appending an entry inserts it into the table.
proof fn lemma_reserved_push(s: Seq<(MACAddress, IPAddress)>, e: (MACAddress, IPAddress))
    ensures
        reserved_entries(s.push(e)) == reserved_entries(s).insert(e.0@, e.1@),
{
    assert(s.push(e).drop_last() =~= s);
    assert(s.push(e).last() == e);
}

/// Rewriting the entry at `i` with the same MAC overwrites its table
/// entry.
proof fn lemma_reserved_update(s: Seq<(MACAddress, IPAddress)>, i: int, e: (MACAddress, IPAddress))
    requires
        unique_macs(s),
        0 <= i < s.len(),
        e.0@ == s[i].0@,
    ensures
        reserved_entries(s.update(i, e)) == reserved_entries(s).insert(e.0@, e.1@),
    decreases s.len(),
{
    let t = s.update(i, e);
    if i == s.len() - 1 {
        assert(t.drop_last() =~= s.drop_last());
        assert(t.last() == e);
        assert(reserved_entries(s.drop_last()).insert(e.0@, e.1@) =~= reserved_entries(s).insert(
            e.0@,
            e.1@,
        ));
    } else {
        assert forall|a: int, b: int| 0 <= a < b < s.drop_last().len() implies (
        #[trigger] s.drop_last()[a]).0@ != (#[trigger] s.drop_last()[b]).0@ by {
            assert(s.drop_last()[a] == s[a]);
            assert(s.drop_last()[b] == s[b]);
        }
        assert(s.drop_last()[i] == s[i]);
        lemma_reserved_update(s.drop_last(), i, e);
        assert(t.drop_last() =~= s.drop_last().update(i, e));
        assert(t.last() == s.last());
        assert(e.0@ != s.last().0@);
        assert(reserved_entries(s.drop_last()).insert(e.0@, e.1@).insert(
            s.last().0@,
            s.last().1@,
        ) =~= reserved_entries(s).insert(e.0@, e.1@));
    }
}

/// Index of the table entry for `mac`, if any.
fn find_mac(v: &Vec<(MACAddress, IPAddress)>, mac: &MACAddress) -> (r: Option<usize>)
    ensures
        r matches Some(i) ==> i < v@.len() && v@[i as int].0@ == mac@,
        r is None ==> !reserved_entries(v@).dom().contains(mac@),
{
    let mut i: usize = 0;
    while i < v.len()
        invariant
            i <= v@.len(),
            forall|j: int| 0 <= j < i ==> (#[trigger] v@[j]).0@ != mac@,
        decreases v@.len() - i,
    {
        if v[i].0 == *mac {
            return Some(i);
        }
        proof {
            if v@[i as int].0@ == mac@ {
                assert(v@[i as int].0.0@ =~= mac.0@);
            }
        }
        i = i + 1;
    }
    proof {
        lemma_reserved_contains(v@, mac@);
    }
    None
}

impl DHCPServer {
    pub open spec fn reserved_map(self) -> Map<Seq<u8>, Seq<u8>> {
        reserved_entries(self.reserved@)
    }

    pub open spec fn wf(self) -> bool {
        &&& self.leases.wf()
        &&& unique_macs(self.reserved@)
    }

    /// The fields that never change while the server runs.
    pub open spec fn same_statics(self, other: DHCPServer) -> bool {
        &&& self.reserved@ == other.reserved@
        &&& self.our_ip == other.our_ip
        &&& self.gateway_ip == other.gateway_ip
        &&& self.subnet_mask == other.subnet_mask
        &&& self.broadcast_address == other.broadcast_address
        &&& self.dns == other.dns
        &&& self.dns_alternative == other.dns_alternative
        &&& self.leases.same_config(other.leases)
    }
}

/// The network-parameter options shared by OFFER, ACK and the INFORM
/// reply, in their wire order; `mtype` is the message subtype code and
/// `with_times` adds the three lease-timer options.
pub open spec fn reply_options(
    s: DHCPServer,
    mtype: u8,
    mac: Seq<u8>,
    with_times: bool,
) -> Seq<(DHCPOptionClass, Seq<u8>)> {
    seq![
        (DHCPOptionClass::DHCPMsgType, seq![mtype]),
        (DHCPOptionClass::DHCPServerID, s.our_ip@),
    ] + (if with_times {
        seq![
            (DHCPOptionClass::AddressTime, u32_bytes(s.leases.address_time)),
            (DHCPOptionClass::RenewalTime, u32_bytes(s.leases.renewal_time)),
            (DHCPOptionClass::RebindingTime, u32_bytes(s.leases.rebinding_time)),
        ]
    } else {
        Seq::empty()
    }) + seq![
        (DHCPOptionClass::SubnetMask, s.subnet_mask@),
        (DHCPOptionClass::BroadcastAddress, s.broadcast_address@),
        (DHCPOptionClass::Gateways, s.gateway_ip@),
        (DHCPOptionClass::DomainServer, s.dns@ + s.dns_alternative@),
        (DHCPOptionClass::ClientID, seq![1u8] + mac),
    ]
}

/// The OFFER reply to a DISCOVER: the chosen address in yiaddr, the
/// server identifier in siaddr, the relay address echoed, and the full
/// option set with lease timers.
pub open spec fn offer_packet(s: DHCPServer, req: PacketV, chosen: Seq<u8>, mac: Seq<u8>) -> PacketV {
    PacketV {
        message_type: MessageType::Reply,
        hardware_type: HardwareType::Ethernet,
        hardware_address_length: 6,
        hops: 0,
        transaction_id: req.transaction_id,
        seconds: 0,
        flags: req.flags,
        client_ip_address: zero_ip(),
        your_ip_address: chosen,
        server_ip_address: s.our_ip@,
        gateway_ip_address: req.gateway_ip_address,
        client_hardware_address: req.client_hardware_address,
        options: reply_options(s, 2, mac, true),
    }
}

/// The ACK reply: the granted address in yiaddr when one was granted,
/// lease timers only in that case, and the client and relay addresses
/// echoed.
pub open spec fn ack_packet(
    s: DHCPServer,
    req: PacketV,
    granted: Option<Seq<u8>>,
    mac: Seq<u8>,
) -> PacketV {
    PacketV {
        message_type: MessageType::Reply,
        hardware_type: HardwareType::Ethernet,
        hardware_address_length: 6,
        hops: 0,
        transaction_id: req.transaction_id,
        seconds: 0,
        flags: req.flags,
        client_ip_address: req.client_ip_address,
        your_ip_address: match granted {
            Some(ip) => ip,
            None => zero_ip(),
        },
        server_ip_address: s.our_ip@,
        gateway_ip_address: req.gateway_ip_address,
        client_hardware_address: req.client_hardware_address,
        options: reply_options(s, 5, mac, granted is Some),
    }
}

/// The NACK reply: no addresses, the relay address echoed, and only the
/// message type, server identifier and client identifier options.
pub open spec fn nack_packet(s: DHCPServer, req: PacketV, mac: Seq<u8>) -> PacketV {
    PacketV {
        message_type: MessageType::Reply,
        hardware_type: HardwareType::Ethernet,
        hardware_address_length: 6,
        hops: 0,
        transaction_id: req.transaction_id,
        seconds: 0,
        flags: req.flags,
        client_ip_address: zero_ip(),
        your_ip_address: zero_ip(),
        server_ip_address: zero_ip(),
        gateway_ip_address: req.gateway_ip_address,
        client_hardware_address: req.client_hardware_address,
        options: seq![
            (DHCPOptionClass::DHCPMsgType, seq![6u8]),
            (DHCPOptionClass::DHCPServerID, s.our_ip@),
            (DHCPOptionClass::ClientID, mac),
        ],
    }
}

/// Where a non-NACK reply is sent: through the relay when one is present,
/// to the client's address when it has one, else by broadcast.
pub open spec fn reply_dest(req: PacketV) -> Option<(Seq<u8>, u16)> {
    if req.gateway_ip_address != zero_ip() {
        Some((req.gateway_ip_address, DHCP_SERVER_PORT))
    } else if req.client_ip_address != zero_ip() {
        Some((req.client_ip_address, DHCP_CLIENT_PORT))
    } else {
        None
    }
}

/// The destination a handler chose, as address octets and a port.
pub open spec fn dest_view(d: Option<Destination>) -> Option<(Seq<u8>, u16)> {
    match d {
        Some(dd) => Some((dd.ip@, dd.port)),
        None => None,
    }
}

/// The address a DISCOVER is answered with when no fresh allocation is
/// needed: the client's address when the reservation table binds this MAC
/// to it, else the client's address when it is leased to this MAC, else
/// the MAC's reserved address.
pub open spec fn discover_static_choice(
    reserved: Map<Seq<u8>, Seq<u8>>,
    lmap: Map<int, (Seq<u8>, u64)>,
    req: PacketV,
    mac: Seq<u8>,
) -> Option<Seq<u8>> {
    if req.client_ip_address != zero_ip() && reserved.dom().contains(mac) && reserved[mac]
        == req.client_ip_address {
        Some(req.client_ip_address)
    } else if req.client_ip_address != zero_ip() && lmap.dom().contains(
        ip_num(req.client_ip_address),
    ) && lmap[ip_num(req.client_ip_address)].0 == mac {
        Some(req.client_ip_address)
    } else if reserved.dom().contains(mac) {
        Some(reserved[mac])
    } else {
        None
    }
}

/// The address a REQUEST asks for, and whether it came from the ciaddr
/// renew path rather than the requested-address option.
pub open spec fn requested_ip_of(req: PacketV) -> Result<(Seq<u8>, bool), HandlePacketError> {
    match find_option(req.options, DHCPOptionClass::AddressRequest) {
        Some(v) => if v.len() != 4 {
            Err(HandlePacketError::InvalidRequestedAddressLength)
        } else {
            Ok((v, false))
        },
        None => if req.client_ip_address == zero_ip() {
            Err(HandlePacketError::NoRequestedIPInRequest)
        } else {
            Ok((req.client_ip_address, true))
        },
    }
}

/// The manager state after reclamation at `now`, with everything but the
/// bindings unchanged.
pub open spec fn leases_cleaned(pre: Leases, post: Leases, now: u64) -> bool {
    &&& post.leases_map() == keep_live(pre.leases_map(), pre.address_time as int, now)
    &&& post.offers_map() == keep_live(pre.offers_map(), pre.offer_time as int, now)
    &&& post.next_available_ip == pre.next_available_ip
}

impl DHCPServer {
    /// A fresh server over the given configuration: an empty lease
    /// manager, and the reservation table with a repeated MAC keeping its
    /// last entry.
    pub fn new(configuration: &Configuration) -> (r: Self)
        requires
            ip_num(configuration.lease_final_ip@) <= 0xFFFFFFFD,
        ensures
            r.wf(),
            r.reserved_map() == reserved_entries(configuration.reserved_ips@),
            r.our_ip == configuration.our_ip,
            r.gateway_ip == configuration.gateway_ip,
            r.subnet_mask == configuration.subnet_mask,
            r.broadcast_address == configuration.broadcast_address,
            r.dns == configuration.dns,
            r.dns_alternative == configuration.dns_alternative,
            r.leases.leases_map() == Map::<int, (Seq<u8>, u64)>::empty(),
            r.leases.offers_map() == Map::<int, (Seq<u8>, u64)>::empty(),
            r.leases.start == configuration.lease_start_ip,
            r.leases.end == configuration.lease_final_ip,
            r.leases.offer_time == configuration.offer_time,
            r.leases.address_time == configuration.address_time,
            r.leases.renewal_time == configuration.renewal_time,
            r.leases.rebinding_time == configuration.rebinding_time,
    {
        let mut reserved: Vec<(MACAddress, IPAddress)> = Vec::new();
        let source = configuration.reserved_ips();
        let mut i: usize = 0;
        while i < source.len()
            invariant
                i <= source@.len(),
                source@ == configuration.reserved_ips@,
                unique_macs(reserved@),
                reserved_entries(reserved@) == reserved_entries(source@.subrange(0, i as int)),
            decreases source@.len() - i,
        {
            let entry = (source[i].0, source[i].1);
            let ghost pre = reserved@;
            proof {
                assert(source@.subrange(0, i + 1) =~= source@.subrange(0, i as int).push(
                    source@[i as int],
                ));
                lemma_reserved_push(source@.subrange(0, i as int), source@[i as int]);
                assert(entry == source@[i as int]);
            }
            match find_mac(&reserved, &source[i].0) {
                Some(j) => {
                    proof {
                        lemma_reserved_update(pre, j as int, entry);
                    }
                    reserved.set(j, entry);
                    proof {
                        assert forall|a: int, b: int|
                            0 <= a < b < reserved@.len() implies (#[trigger] reserved@[a]).0@ != (
                        #[trigger] reserved@[b]).0@ by {
                            assert(reserved@ == pre.update(j as int, entry));
                            if a != j && b != j {
                                assert(reserved@[a] == pre[a]);
                                assert(reserved@[b] == pre[b]);
                            } else {
                                assert(entry.0@ == pre[j as int].0@);
                            }
                        }
                    }
                },
                None => {
                    proof {
                        lemma_reserved_push(pre, entry);
                        lemma_reserved_contains(pre, entry.0@);
                    }
                    reserved.push(entry);
                    proof {
                        assert forall|a: int, b: int|
                            0 <= a < b < reserved@.len() implies (#[trigger] reserved@[a]).0@ != (
                        #[trigger] reserved@[b]).0@ by {
                            if b == reserved@.len() - 1 {
                                assert(pre[a] == reserved@[a]);
                                if reserved@[a].0@ == entry.0@ {
                                    assert(reserved_entries(pre).dom().contains(entry.0@));
                                    assert(false);
                                }
                            } else {
                                assert(pre[a] == reserved@[a]);
                                assert(pre[b] == reserved@[b]);
                            }
                        }
                    }
                },
            }
            i = i + 1;
        }
        proof {
            assert(source@.subrange(0, source@.len() as int) =~= source@);
        }

        let (dns, dns_alternative) = configuration.dns();

        DHCPServer {
            leases: Leases::new(configuration),
            reserved,
            our_ip: configuration.our_ip(),
            gateway_ip: configuration.gateway_ip(),
            subnet_mask: configuration.subnet_mask(),
            broadcast_address: configuration.broadcast_address(),
            dns,
            dns_alternative,
        }
    }

    /// The committed bindings, as owned pairs for status reporting.
    pub fn current_leases(&self) -> (r: Vec<(IPAddress, MACAddress)>)
        ensures
            r@.len() == self.leases.leases@.len(),
            forall|j: int|
                0 <= j < r@.len() ==> (#[trigger] r@[j]).0 == self.leases.leases@[j].ip && r@[j].1
                    == self.leases.leases@[j].mac,
    {
        self.leases.current_leases()
    }

    /// Build a reply with the shared header shape and option set.
    fn build_reply_packet(
        &self,
        packet: &DHCPPacket,
        subtype: u8,
        client_ip: IPAddress,
        your_ip: IPAddress,
        with_times: bool,
        mac_address: MACAddress,
    ) -> (r: DHCPPacket)
        ensures
            r@ == (PacketV {
                message_type: MessageType::Reply,
                hardware_type: HardwareType::Ethernet,
                hardware_address_length: 6,
                hops: 0,
                transaction_id: packet@.transaction_id,
                seconds: 0,
                flags: packet@.flags,
                client_ip_address: client_ip@,
                your_ip_address: your_ip@,
                server_ip_address: self.our_ip@,
                gateway_ip_address: packet@.gateway_ip_address,
                client_hardware_address: packet@.client_hardware_address,
                options: reply_options(*self, subtype, mac_address@, with_times),
            }),
    {
        let mut r = DHCPPacket::new(
            packet.transaction_id(),
            packet.flags(),
            client_ip,
            your_ip,
            self.our_ip,
            packet.gateway_ip_address(),
            *packet.client_hardware_address(),
        );
        let subtype_value = [subtype];
        r.add_option(DHCPOptionClass::DHCPMsgType, subtype_value.as_slice());
        r.add_option(DHCPOptionClass::DHCPServerID, self.our_ip.as_slice());
        if with_times {
            let address_time = u32_to_slice(self.leases.address_time());
            r.add_option(DHCPOptionClass::AddressTime, address_time.as_slice());
            let renewal_time = u32_to_slice(self.leases.renewal_time());
            r.add_option(DHCPOptionClass::RenewalTime, renewal_time.as_slice());
            let rebinding_time = u32_to_slice(self.leases.rebinding_time());
            r.add_option(DHCPOptionClass::RebindingTime, rebinding_time.as_slice());
        }
        r.add_option(DHCPOptionClass::SubnetMask, self.subnet_mask.as_slice());
        r.add_option(DHCPOptionClass::BroadcastAddress, self.broadcast_address.as_slice());
        r.add_option(DHCPOptionClass::Gateways, self.gateway_ip.as_slice());
        let dns = [
            self.dns.0[0],
            self.dns.0[1],
            self.dns.0[2],
            self.dns.0[3],
            self.dns_alternative.0[0],
            self.dns_alternative.0[1],
            self.dns_alternative.0[2],
            self.dns_alternative.0[3],
        ];
        r.add_option(DHCPOptionClass::DomainServer, dns.as_slice());
        let client_id = [
            1u8,
            mac_address.0[0],
            mac_address.0[1],
            mac_address.0[2],
            mac_address.0[3],
            mac_address.0[4],
            mac_address.0[5],
        ];
        r.add_option(DHCPOptionClass::ClientID, client_id.as_slice());
        proof {
            assert(subtype_value@ =~= seq![subtype]);
            assert(dns@ =~= self.dns@ + self.dns_alternative@);
            assert(client_id@ =~= seq![1u8] + mac_address@);
            assert(r@.options =~~= reply_options(*self, subtype, mac_address@, with_times));
            assert(r@ =~~= (PacketV {
                message_type: MessageType::Reply,
                hardware_type: HardwareType::Ethernet,
                hardware_address_length: 6,
                hops: 0,
                transaction_id: packet@.transaction_id,
                seconds: 0,
                flags: packet@.flags,
                client_ip_address: client_ip@,
                your_ip_address: your_ip@,
                server_ip_address: self.our_ip@,
                gateway_ip_address: packet@.gateway_ip_address,
                client_hardware_address: packet@.client_hardware_address,
                options: reply_options(*self, subtype, mac_address@, with_times),
            }));
        }
        r
    }

    /// The NACK reply, as `nack_packet` describes it.
    fn generate_nack_packet(&self, request_packet: &DHCPPacket, mac_address: MACAddress) -> (r:
        DHCPPacket)
        ensures
            r@ == nack_packet(*self, request_packet@, mac_address@),
    {
        let zero = IPAddress::new([0, 0, 0, 0]);
        let mut r = DHCPPacket::new(
            request_packet.transaction_id(),
            request_packet.flags(),
            zero,
            zero,
            zero,
            request_packet.gateway_ip_address(),
            *request_packet.client_hardware_address(),
        );
        let subtype_value = [6u8];
        r.add_option(DHCPOptionClass::DHCPMsgType, subtype_value.as_slice());
        r.add_option(DHCPOptionClass::DHCPServerID, self.our_ip.as_slice());
        r.add_option(DHCPOptionClass::ClientID, mac_address.as_slice());
        proof {
            assert(zero@ =~= zero_ip());
            assert(subtype_value@ =~= seq![6u8]);
            assert(r@.options =~~= nack_packet(*self, request_packet@, mac_address@).options);
            assert(r@ =~~= nack_packet(*self, request_packet@, mac_address@));
        }
        r
    }

    /// The ACK reply and its destination, as `ack_packet` describes it:
    /// the reply to a granted REQUEST carries the granted address and the
    /// lease timers and follows the relay rules; the reply to an INFORM
    /// carries neither and goes straight to the client's address.
    fn generate_ack_packet(
        &self,
        request_packet: &DHCPPacket,
        requested_address: Option<IPAddress>,
        mac_address: MACAddress,
    ) -> (r: (DHCPPacket, Option<Destination>))
        ensures
            r.0@ == ack_packet(
                *self,
                request_packet@,
                match requested_address {
                    Some(ip) => Some(ip@),
                    None => None,
                },
                mac_address@,
            ),
            match requested_address {
                Some(_) => dest_view(r.1) == reply_dest(request_packet@),
                None => dest_view(r.1) == Some(
                    (request_packet@.client_ip_address, DHCP_CLIENT_PORT),
                ),
            },
    {
        let (your_ip, with_times) = match requested_address {
            Some(address) => (address, true),
            None => (IPAddress::new([0, 0, 0, 0]), false),
        };
        let packet = self.build_reply_packet(
            request_packet,
            5,
            request_packet.client_ip_address(),
            your_ip,
            with_times,
            mac_address,
        );
        proof {
            if requested_address is None {
                assert(your_ip@ =~= zero_ip());
            }
            assert(packet@ =~~= ack_packet(
                *self,
                request_packet@,
                match requested_address {
                    Some(ip) => Some(ip@),
                    None => None,
                },
                mac_address@,
            ));
        }
        let destination = match requested_address {
            Some(_) => {
                if !request_packet.gateway_ip_address().is_zero() {
                    proof {
                        zero_ip_neq(request_packet@.gateway_ip_address);
                    }
                    Some(
                        Destination {
                            ip: request_packet.gateway_ip_address(),
                            port: DHCP_SERVER_PORT,
                        },
                    )
                } else if !request_packet.client_ip_address().is_zero() {
                    proof {
                        zero_ip_neq(request_packet@.client_ip_address);
                    }
                    Some(
                        Destination {
                            ip: request_packet.client_ip_address(),
                            port: DHCP_CLIENT_PORT,
                        },
                    )
                } else {
                    None
                }
            },
            None => Some(
                Destination { ip: request_packet.client_ip_address(), port: DHCP_CLIENT_PORT },
            ),
        };
        (packet, destination)
    }
}

impl DHCPServer {
    /// Answer a DISCOVER: choose an address as `discover_static_choice`
    /// has it, allocating from the pool only when that yields nothing,
    /// and build the OFFER for it.
    fn handle_discover_packet(&mut self, packet: &DHCPPacket, mac_address: MACAddress, now: u64)
        -> (r: Result<DHCPPacket, HandlePacketError>)
        requires
            old(self).wf(),
        ensures
            final(self).wf(),
            final(self).same_statics(*old(self)),
            final(self).leases.leases@ == old(self).leases.leases@,
            ({
                let choice = discover_static_choice(
                    old(self).reserved_map(),
                    old(self).leases.leases_map(),
                    packet@,
                    mac_address@,
                );
                match choice {
                    Some(chosen) => r matches Ok(p) && p@ == offer_packet(
                        *old(self),
                        packet@,
                        chosen,
                        mac_address@,
                    ) && *final(self) == *old(self),
                    None => match old(self).leases.alloc_find() {
                        Some(k) => {
                            &&& r matches Ok(p) && p@ == offer_packet(
                                *old(self),
                                packet@,
                                ip_octets(k),
                                mac_address@,
                            )
                            &&& final(self).leases.offers_map() == old(
                                self,
                            ).leases.offers_map().insert(k, (mac_address@, now))
                            &&& old(self).leases.start_n() <= k <= old(self).leases.end_n()
                            &&& match final(self).leases.next_available_ip {
                                Some(h) => ip_next(k) <= old(self).leases.end_n() && ip_num(h@)
                                    == ip_next(k),
                                None => ip_next(k) > old(self).leases.end_n(),
                            }
                        },
                        None => {
                            &&& r matches Err(HandlePacketError::NoIPAddressesAvailable)
                            &&& final(self).leases.offers@ == old(self).leases.offers@
                            &&& final(self).leases.next_available_ip is None
                        },
                    },
                }
            }),
    {
        // Select an address for the client
        let mut return_ip: Option<IPAddress> = None;

        if !packet.client_ip_address().is_zero() {
            proof {
                zero_ip_neq(packet@.client_ip_address);
            }
            // First as this client's reserved address
            match find_mac(&self.reserved, &mac_address) {
                Some(j) => {
                    proof {
                        lemma_reserved_at(self.reserved@, j as int);
                    }
                    if self.reserved[j].1 == packet.client_ip_address() {
                        return_ip = Some(packet.client_ip_address());
                    }
                },
                None => {},
            }
            // Secondly as this client's current lease
            if return_ip.is_none() {
                if self.leases.leased_to(&packet.client_ip_address(), &mac_address) {
                    return_ip = Some(packet.client_ip_address());
                }
            }
        }

        // Thirdly any reserved address for this MAC
        if return_ip.is_none() {
            match find_mac(&self.reserved, &mac_address) {
                Some(j) => {
                    proof {
                        lemma_reserved_at(self.reserved@, j as int);
                    }
                    return_ip = Some(self.reserved[j].1);
                },
                None => {},
            }
        }

        proof {
            let choice = discover_static_choice(
                self.reserved_map(),
                self.leases.leases_map(),
                packet@,
                mac_address@,
            );
            match return_ip {
                Some(ip) => {
                    assert(choice == Some(ip@));
                },
                None => {
                    assert(choice is None);
                },
            }
        }

        // Otherwise allocate from the pool
        let return_ip = match return_ip {
            Some(return_ip) => return_ip,
            None => match self.leases.allocate(mac_address, now) {
                Some(ip) => {
                    proof {
                        crate::address::lemma_ip_octets_of_num(ip@);
                    }
                    ip
                },
                None => {
                    return Err(HandlePacketError::NoIPAddressesAvailable);
                },
            },
        };

        let offer = self.build_reply_packet(
            packet,
            2,
            IPAddress::new([0, 0, 0, 0]),
            return_ip,
            true,
            mac_address,
        );
        proof {
            assert(IPAddress([0u8, 0u8, 0u8, 0u8])@ =~= zero_ip());
            assert(offer@ =~~= offer_packet(*old(self), packet@, return_ip@, mac_address@));
        }
        Ok(offer)
    }

    /// Answer a REQUEST: find the address the client asks for, honour the
    /// reservation table first, otherwise commit through the lease
    /// manager; refusal is a broadcast NACK, or an error on the renew
    /// path.
    fn handle_request_packet(&mut self, packet: &DHCPPacket, mac_address: MACAddress, now: u64)
        -> (r: Result<(DHCPPacket, Option<Destination>), HandlePacketError>)
        requires
            old(self).wf(),
        ensures
            final(self).wf(),
            final(self).same_statics(*old(self)),
            ({
                match requested_ip_of(packet@) {
                    Err(e) => r matches Err(e2) && e2 == e && *final(self) == *old(self),
                    Ok((requested, renew)) => {
                        if old(self).reserved_map().dom().contains(mac_address@) {
                            &&& *final(self) == *old(self)
                            &&& if old(self).reserved_map()[mac_address@] == requested {
                                r matches Ok(pd) && pd.0@ == ack_packet(
                                    *old(self),
                                    packet@,
                                    Some(requested),
                                    mac_address@,
                                ) && dest_view(pd.1) == reply_dest(packet@)
                            } else if renew {
                                r matches Err(HandlePacketError::InvalidRenewAddress)
                            } else {
                                r matches Ok(pd) && pd.0@ == nack_packet(
                                    *old(self),
                                    packet@,
                                    mac_address@,
                                ) && pd.1 is None
                            }
                        } else {
                            if old(self).leases.accept_ok(ip_num(requested), mac_address@) {
                                &&& r matches Ok(pd) && pd.0@ == ack_packet(
                                    *old(self),
                                    packet@,
                                    Some(requested),
                                    mac_address@,
                                ) && dest_view(pd.1) == reply_dest(packet@)
                                &&& final(self).leases.leases_map() == old(
                                    self,
                                ).leases.leases_map().insert(ip_num(requested), (mac_address@, now))
                                &&& final(self).leases.offers_map() == old(
                                    self,
                                ).leases.offers_map().remove(ip_num(requested))
                                &&& final(self).leases.next_available_ip == old(
                                    self,
                                ).leases.next_available_ip
                            } else {
                                &&& *final(self) == *old(self)
                                &&& if renew {
                                    r matches Err(HandlePacketError::InvalidRenewAddress)
                                } else {
                                    r matches Ok(pd) && pd.0@ == nack_packet(
                                        *old(self),
                                        packet@,
                                        mac_address@,
                                    ) && pd.1 is None
                                }
                            }
                        }
                    },
                }
            }),
    {
        // Find the address the client asks for
        let (requested_ip, renew): (IPAddress, bool) = match packet.get_option(
            DHCPOptionClass::AddressRequest,
        ) {
            Some(value) => {
                if value.len() != 4 {
                    return Err(HandlePacketError::InvalidRequestedAddressLength);
                }
                let ip = IPAddress::new([value[0], value[1], value[2], value[3]]);
                proof {
                    assert(ip@ =~= find_option(packet@.options, DHCPOptionClass::AddressRequest)
                        .unwrap());
                }
                (ip, false)
            },
            None => {
                if packet.client_ip_address().is_zero() {
                    return Err(HandlePacketError::NoRequestedIPInRequest);
                }
                proof {
                    zero_ip_neq(packet@.client_ip_address);
                }
                (packet.client_ip_address(), true)
            },
        };

        // A reserved MAC is granted exactly its reserved address
        match find_mac(&self.reserved, &mac_address) {
            Some(j) => {
                proof {
                    lemma_reserved_at(self.reserved@, j as int);
                }
                if self.reserved[j].1 == requested_ip {
                    return Ok(self.generate_ack_packet(packet, Some(requested_ip), mac_address));
                } else {
                    proof {
                        if self.reserved@[j as int].1@ == requested_ip@ {
                            assert(self.reserved@[j as int].1.0@ =~= requested_ip.0@);
                        }
                    }
                    if renew {
                        return Err(HandlePacketError::InvalidRenewAddress);
                    } else {
                        return Ok((self.generate_nack_packet(packet, mac_address), None));
                    }
                }
            },
            None => {},
        }

        // Otherwise commit through the lease manager
        if self.leases.accept_offer(requested_ip, mac_address, now) {
            let r = self.generate_ack_packet(packet, Some(requested_ip), mac_address);
            proof {
                assert(r.0@ =~~= ack_packet(
                    *old(self),
                    packet@,
                    Some(requested_ip@),
                    mac_address@,
                ));
            }
            Ok(r)
        } else {
            if renew {
                Err(HandlePacketError::InvalidRenewAddress)
            } else {
                Ok((self.generate_nack_packet(packet, mac_address), None))
            }
        }
    }
}

impl DHCPServer {
    /// The per-message entry point: ignore replies, reclaim expired
    /// bindings, demand a message-type option and Ethernet hardware with
    /// six address bytes, then dispatch on the subtype. The result pairs
    /// the response packet, when there is one, with its destination;
    /// `None` in place of the destination means limited broadcast.
    pub fn handle_packet(&mut self, packet: DHCPPacket, now: u64) -> (r: Result<
        Option<(DHCPPacket, Option<Destination>)>,
        HandlePacketError,
    >)
        requires
            old(self).wf(),
        ensures
            final(self).wf(),
            final(self).same_statics(*old(self)),
            ({
                let cleaned_l = keep_live(
                    old(self).leases.leases_map(),
                    old(self).leases.address_time as int,
                    now,
                );
                let cleaned_o = keep_live(
                    old(self).leases.offers_map(),
                    old(self).leases.offer_time as int,
                    now,
                );
                let mac = packet@.client_hardware_address.subrange(0, 6);
                if packet@.message_type == MessageType::Reply {
                    r matches Ok(o) && o is None && *final(self) == *old(self)
                } else {
                    match find_option(packet@.options, DHCPOptionClass::DHCPMsgType) {
                        None => r matches Err(HandlePacketError::NoMsgType) && leases_cleaned(
                            old(self).leases,
                            final(self).leases,
                            now,
                        ),
                        Some(tv) => {
                            if tv.len() == 0 {
                                r matches Err(HandlePacketError::MalformedOption)
                                    && leases_cleaned(old(self).leases, final(self).leases, now)
                            } else if packet@.hardware_type != HardwareType::Ethernet {
                                (r matches Err(e) && e == HandlePacketError::InvalidHardwareType(
                                    packet@.hardware_type,
                                )) && leases_cleaned(old(self).leases, final(self).leases, now)
                            } else if packet@.hardware_address_length != 6 {
                                (r matches Err(e) && e
                                    == HandlePacketError::InvalidHardwareAddressLength(
                                    packet@.hardware_address_length,
                                )) && leases_cleaned(old(self).leases, final(self).leases, now)
                            } else if tv[0] == 1 {
                                match discover_static_choice(
                                    old(self).reserved_map(),
                                    cleaned_l,
                                    packet@,
                                    mac,
                                ) {
                                    Some(chosen) => r matches Ok(o) && o matches Some(pd)
                                        && pd.0@ == offer_packet(*old(self), packet@, chosen, mac)
                                        && dest_view(pd.1) == reply_dest(packet@)
                                        && leases_cleaned(
                                        old(self).leases,
                                        final(self).leases,
                                        now,
                                    ),
                                    None => match first_free(
                                        cleaned_l,
                                        cleaned_o,
                                        old(self).leases.end_n(),
                                        old(self).leases.scan_start(),
                                    ) {
                                        Some(k) => {
                                            &&& r matches Ok(o) && o matches Some(pd) && pd.0@
                                                == offer_packet(
                                                *old(self),
                                                packet@,
                                                ip_octets(k),
                                                mac,
                                            ) && dest_view(pd.1) == reply_dest(packet@)
                                            &&& final(self).leases.leases_map() == cleaned_l
                                            &&& final(self).leases.offers_map()
                                                == cleaned_o.insert(k, (mac, now))
                                            &&& match final(self).leases.next_available_ip {
                                                Some(h) => ip_next(k) <= old(self).leases.end_n()
                                                    && ip_num(h@) == ip_next(k),
                                                None => ip_next(k) > old(self).leases.end_n(),
                                            }
                                        },
                                        None => {
                                            &&& r matches Err(
                                                HandlePacketError::NoIPAddressesAvailable,
                                            )
                                            &&& final(self).leases.leases_map() == cleaned_l
                                            &&& final(self).leases.offers_map() == cleaned_o
                                            &&& final(self).leases.next_available_ip is None
                                        },
                                    },
                                }
                            } else if tv[0] == 3 {
                                match requested_ip_of(packet@) {
                                    Err(e) => r matches Err(e2) && e2 == e && leases_cleaned(
                                        old(self).leases,
                                        final(self).leases,
                                        now,
                                    ),
                                    Ok((requested, renew)) => {
                                        if old(self).reserved_map().dom().contains(mac) {
                                            &&& leases_cleaned(
                                                old(self).leases,
                                                final(self).leases,
                                                now,
                                            )
                                            &&& if old(self).reserved_map()[mac] == requested {
                                                r matches Ok(o) && o matches Some(pd) && pd.0@
                                                    == ack_packet(
                                                    *old(self),
                                                    packet@,
                                                    Some(requested),
                                                    mac,
                                                ) && dest_view(pd.1) == reply_dest(packet@)
                                            } else if renew {
                                                r matches Err(
                                                    HandlePacketError::InvalidRenewAddress,
                                                )
                                            } else {
                                                r matches Ok(o) && o matches Some(pd) && pd.0@
                                                    == nack_packet(*old(self), packet@, mac)
                                                    && pd.1 is None
                                            }
                                        } else {
                                            if accept_ok_maps(
                                                cleaned_l,
                                                cleaned_o,
                                                old(self).leases.start_n(),
                                                old(self).leases.end_n(),
                                                ip_num(requested),
                                                mac,
                                            ) {
                                                &&& r matches Ok(o) && o matches Some(pd) && pd.0@
                                                    == ack_packet(
                                                    *old(self),
                                                    packet@,
                                                    Some(requested),
                                                    mac,
                                                ) && dest_view(pd.1) == reply_dest(packet@)
                                                &&& final(self).leases.leases_map()
                                                    == cleaned_l.insert(
                                                    ip_num(requested),
                                                    (mac, now),
                                                )
                                                &&& final(self).leases.offers_map()
                                                    == cleaned_o.remove(ip_num(requested))
                                                &&& final(self).leases.next_available_ip == old(
                                                    self,
                                                ).leases.next_available_ip
                                            } else {
                                                &&& leases_cleaned(
                                                    old(self).leases,
                                                    final(self).leases,
                                                    now,
                                                )
                                                &&& if renew {
                                                    r matches Err(
                                                        HandlePacketError::InvalidRenewAddress,
                                                    )
                                                } else {
                                                    r matches Ok(o) && o matches Some(pd) && pd.0@
                                                        == nack_packet(*old(self), packet@, mac)
                                                        && pd.1 is None
                                                }
                                            }
                                        }
                                    },
                                }
                            } else if tv[0] == 4 {
                                r matches Err(HandlePacketError::DeclineMessageRecieved)
                                    && leases_cleaned(old(self).leases, final(self).leases, now)
                            } else if tv[0] == 7 {
                                &&& r matches Ok(o) && o is None
                                &&& final(self).leases.offers_map() == cleaned_o
                                &&& final(self).leases.next_available_ip == old(
                                    self,
                                ).leases.next_available_ip
                                &&& final(self).leases.leases_map() == (if cleaned_l.dom().contains(
                                    ip_num(packet@.client_ip_address),
                                ) && cleaned_l[ip_num(packet@.client_ip_address)].0 == mac {
                                    cleaned_l.remove(ip_num(packet@.client_ip_address))
                                } else {
                                    cleaned_l
                                })
                            } else if tv[0] == 8 {
                                &&& r matches Ok(o) && o matches Some(pd) && pd.0@ == ack_packet(
                                    *old(self),
                                    packet@,
                                    None,
                                    mac,
                                ) && dest_view(pd.1) == Some(
                                    (packet@.client_ip_address, DHCP_CLIENT_PORT),
                                )
                                &&& leases_cleaned(old(self).leases, final(self).leases, now)
                            } else {
                                r matches Ok(o) && o is None && leases_cleaned(
                                    old(self).leases,
                                    final(self).leases,
                                    now,
                                )
                            }
                        },
                    }
                }
            }),
    {
        // Ignore reply messages
        if let MessageType::Reply = packet.message_type() {
            return Ok(None);
        }

        // Clear expired bindings
        self.leases.clean_leases(now);
        let ghost mid = *self;

        // Get the message subtype
        let packet_type: u8 = match packet.get_option(DHCPOptionClass::DHCPMsgType) {
            Some(value) => {
                if value.len() == 0 {
                    return Err(HandlePacketError::MalformedOption);
                }
                value[0]
            },
            None => {
                return Err(HandlePacketError::NoMsgType);
            },
        };

        // Extract the client's MAC
        let mac_address = match packet.hardware_type() {
            HardwareType::Ethernet => match packet.hardware_address_length() {
                6 => {
                    let a = packet.client_hardware_address();
                    MACAddress::new([a[0], a[1], a[2], a[3], a[4], a[5]])
                },
                _ => {
                    return Err(
                        HandlePacketError::InvalidHardwareAddressLength(
                            packet.hardware_address_length(),
                        ),
                    );
                },
            },
            _ => {
                return Err(HandlePacketError::InvalidHardwareType(packet.hardware_type()));
            },
        };
        proof {
            assert(mac_address@ =~= packet@.client_hardware_address.subrange(0, 6));
        }

        // Dispatch on the subtype
        if packet_type == 1 {
            let response_packet = match self.handle_discover_packet(&packet, mac_address, now) {
                Ok(p) => p,
                Err(e) => {
                    return Err(e);
                },
            };
            let destination = if !packet.gateway_ip_address().is_zero() {
                proof {
                    zero_ip_neq(packet@.gateway_ip_address);
                }
                Some(Destination { ip: packet.gateway_ip_address(), port: DHCP_SERVER_PORT })
            } else if !packet.client_ip_address().is_zero() {
                proof {
                    zero_ip_neq(packet@.client_ip_address);
                }
                Some(Destination { ip: packet.client_ip_address(), port: DHCP_CLIENT_PORT })
            } else {
                None
            };
            proof {
                match discover_static_choice(
                    mid.reserved_map(),
                    mid.leases.leases_map(),
                    packet@,
                    mac_address@,
                ) {
                    Some(chosen) => {
                        assert(response_packet@ =~~= offer_packet(
                            *old(self),
                            packet@,
                            chosen,
                            mac_address@,
                        ));
                    },
                    None => {
                        match mid.leases.alloc_find() {
                            Some(k) => {
                                assert(response_packet@ =~~= offer_packet(
                                    *old(self),
                                    packet@,
                                    ip_octets(k),
                                    mac_address@,
                                ));
                            },
                            None => {},
                        }
                    },
                }
            }
            Ok(Some((response_packet, destination)))
        } else if packet_type == 3 {
            match self.handle_request_packet(&packet, mac_address, now) {
                Ok(pd) => {
                    proof {
                        match requested_ip_of(packet@) {
                            Ok((requested, renew)) => {
                                if mid.reserved_map().dom().contains(mac_address@) {
                                    if mid.reserved_map()[mac_address@] == requested {
                                        assert(pd.0@ =~~= ack_packet(
                                            *old(self),
                                            packet@,
                                            Some(requested),
                                            mac_address@,
                                        ));
                                    } else if !renew {
                                        assert(pd.0@ =~~= nack_packet(
                                            *old(self),
                                            packet@,
                                            mac_address@,
                                        ));
                                    }
                                } else {
                                    if mid.leases.accept_ok(ip_num(requested), mac_address@) {
                                        assert(pd.0@ =~~= ack_packet(
                                            *old(self),
                                            packet@,
                                            Some(requested),
                                            mac_address@,
                                        ));
                                    } else if !renew {
                                        assert(pd.0@ =~~= nack_packet(
                                            *old(self),
                                            packet@,
                                            mac_address@,
                                        ));
                                    }
                                }
                            },
                            Err(_) => {},
                        }
                    }
                    Ok(Some(pd))
                },
                Err(e) => Err(e),
            }
        } else if packet_type == 4 {
            Err(HandlePacketError::DeclineMessageRecieved)
        } else if packet_type == 7 {
            self.leases.release(packet.client_ip_address(), mac_address);
            Ok(None)
        } else if packet_type == 8 {
            let pd = self.generate_ack_packet(&packet, None, mac_address);
            proof {
                assert(pd.0@ =~~= ack_packet(*old(self), packet@, None, mac_address@));
            }
            Ok(Some(pd))
        } else {
            Ok(None)
        }
    }
}

/// A sequence that is not extensionally equal to the zero address is not
/// equal to it.
proof fn zero_ip_neq(s: Seq<u8>)
    requires
        !(s =~= zero_ip()),
    ensures
        s != zero_ip(),
{
    if s == zero_ip() {
        assert(s =~= zero_ip());
    }
}

} // verus!
