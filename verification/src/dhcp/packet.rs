//! The DHCP packet codec: the fixed header, the magic cookie, and the TLV
//! options region, decoded from and encoded to raw datagram bytes.

use crate::address::IPAddress;
use crate::dhcp::hardware_type::{ht_code, ht_of, ht_wf, HardwareType};
use crate::dhcp::message_type::{mt_code, mt_of, MessageType};
use crate::dhcp::option::{
    class_code, class_of, class_wf, opt_bytes, opt_parse, DHCPOption, DHCPOptionClass,
    ParseOptionError,
};
use crate::util::{
    lemma_u16_bytes_val, lemma_u32_bytes_val, slice_to_u16, slice_to_u32, u16_bytes, u16_to_slice,
    u16_val, u32_bytes, u32_to_slice, u32_val,
};
use vstd::prelude::*;

verus! {

/// A parsed DHCP packet. The 16-byte client hardware address is carried
/// whole; only its first `hardware_address_length` bytes are significant.
pub struct DHCPPacket {
    pub message_type: MessageType,
    pub hardware_type: HardwareType,
    pub hardware_address_length: u8,
    pub hops: u8,
    pub transaction_id: u32,
    pub seconds: u16,
    pub flags: u16,
    pub client_ip_address: IPAddress,
    pub your_ip_address: IPAddress,
    pub server_ip_address: IPAddress,
    pub gateway_ip_address: IPAddress,
    pub client_hardware_address: [u8; 16],
    pub options: Vec<DHCPOption>,
}

#[derive(Debug)]
pub enum PacketParseError {
    TooShort(usize),
    NoEndOption,
    InvalidMagic([u8; 4]),
    InvalidMessageType(u8),
    ParseOptionError(ParseOptionError),
}

/// The mathematical model of a packet: every fixed-header field, and the
/// option list as class and value pairs.
#[verifier::ext_equal]
pub struct PacketV {
    pub message_type: MessageType,
    pub hardware_type: HardwareType,
    pub hardware_address_length: u8,
    pub hops: u8,
    pub transaction_id: u32,
    pub seconds: u16,
    pub flags: u16,
    pub client_ip_address: Seq<u8>,
    pub your_ip_address: Seq<u8>,
    pub server_ip_address: Seq<u8>,
    pub gateway_ip_address: Seq<u8>,
    pub client_hardware_address: Seq<u8>,
    pub options: Seq<(DHCPOptionClass, Seq<u8>)>,
}

/// The option list of a packet, viewed as class and value pairs.
pub open spec fn opts_view(s: Seq<DHCPOption>) -> Seq<(DHCPOptionClass, Seq<u8>)> {
    s.map_values(|o: DHCPOption| o@)
}

impl View for DHCPPacket {
    type V = PacketV;

    open spec fn view(&self) -> PacketV {
        PacketV {
            message_type: self.message_type,
            hardware_type: self.hardware_type,
            hardware_address_length: self.hardware_address_length,
            hops: self.hops,
            transaction_id: self.transaction_id,
            seconds: self.seconds,
            flags: self.flags,
            client_ip_address: self.client_ip_address@,
            your_ip_address: self.your_ip_address@,
            server_ip_address: self.server_ip_address@,
            gateway_ip_address: self.gateway_ip_address@,
            client_hardware_address: self.client_hardware_address@,
            options: opts_view(self.options@),
        }
    }
}

/// A packet whose fields can reach the wire and come back unchanged: all
/// address fields have their wire width, the hardware type and the option
/// classes map back from their codes, no option is the End marker itself,
/// and every option value fits its single length byte.
pub open spec fn packet_wf(p: PacketV) -> bool {
    &&& ht_wf(p.hardware_type)
    &&& p.client_ip_address.len() == 4
    &&& p.your_ip_address.len() == 4
    &&& p.server_ip_address.len() == 4
    &&& p.gateway_ip_address.len() == 4
    &&& p.client_hardware_address.len() == 16
    &&& forall|j: int|
        0 <= j < p.options.len() ==> (#[trigger] p.options[j]).0 != DHCPOptionClass::End
            && class_wf(p.options[j].0) && p.options[j].1.len() <= 255
}

/// What parsing the options region from offset `i` yields: the options in
/// order up to the End marker, or the first error met.
pub open spec fn parse_options_spec(bytes: Seq<u8>, i: int) -> Result<
    Seq<(DHCPOptionClass, Seq<u8>)>,
    PacketParseError,
>
    decreases bytes.len() - i,
{
    if i < 0 || i >= bytes.len() {
        Err(PacketParseError::NoEndOption)
    } else {
        match opt_parse(bytes.subrange(i, bytes.len() as int)) {
            Err(e) => Err(PacketParseError::ParseOptionError(e)),
            Ok((c, v)) => if c == DHCPOptionClass::End {
                Ok(Seq::empty())
            } else {
                match parse_options_spec(bytes, i + 2 + v.len()) {
                    Ok(rest) => Ok(seq![(c, v)] + rest),
                    Err(e) => Err(e),
                }
            },
        }
    }
}

/// What decoding a datagram yields: reject short buffers, then a bad magic
/// cookie, then a malformed options region, then an op that is neither
/// request nor reply; otherwise the packet model read from the bytes.
pub open spec fn parse_packet_spec(bytes: Seq<u8>) -> Result<PacketV, PacketParseError> {
    if bytes.len() < 241 {
        Err(PacketParseError::TooShort(bytes.len() as usize))
    } else if !(bytes[236] == 99 && bytes[237] == 130 && bytes[238] == 83 && bytes[239] == 99) {
        Err(PacketParseError::InvalidMagic([bytes[236], bytes[237], bytes[238], bytes[239]]))
    } else {
        match (parse_options_spec(bytes, 240), mt_of(bytes[0])) {
            (Err(e), _) => Err(e),
            (Ok(opts), None) => Err(PacketParseError::InvalidMessageType(bytes[0])),
            (Ok(opts), Some(mt)) => Ok(
                PacketV {
                    message_type: mt,
                    hardware_type: ht_of(bytes[1]),
                    hardware_address_length: bytes[2],
                    hops: bytes[3],
                    transaction_id: u32_val(bytes.subrange(4, 8)) as u32,
                    seconds: u16_val(bytes.subrange(8, 10)) as u16,
                    flags: u16_val(bytes.subrange(10, 12)) as u16,
                    client_ip_address: bytes.subrange(12, 16),
                    your_ip_address: bytes.subrange(16, 20),
                    server_ip_address: bytes.subrange(20, 24),
                    gateway_ip_address: bytes.subrange(24, 28),
                    client_hardware_address: bytes.subrange(28, 44),
                    options: opts,
                },
            ),
        }
    }
}

/// A run of zero bytes, as the sname and file header regions hold.
pub open spec fn zero_bytes(n: int) -> Seq<u8> {
    Seq::new(n as nat, |i: int| 0u8)
}

/// The 240 bytes of the fixed header up to and including the magic cookie.
/// The sname and file regions are always zero.
pub open spec fn header_bytes(p: PacketV) -> Seq<u8> {
    seq![mt_code(p.message_type), ht_code(p.hardware_type), p.hardware_address_length, p.hops]
        + u32_bytes(p.transaction_id) + u16_bytes(p.seconds) + u16_bytes(p.flags)
        + p.client_ip_address + p.your_ip_address + p.server_ip_address + p.gateway_ip_address
        + p.client_hardware_address + zero_bytes(64) + zero_bytes(128) + seq![
        99u8,
        130u8,
        83u8,
        99u8,
    ]
}

/// The wire bytes of an option list, in order.
pub open spec fn options_bytes(opts: Seq<(DHCPOptionClass, Seq<u8>)>) -> Seq<u8>
    decreases opts.len(),
{
    if opts.len() == 0 {
        Seq::empty()
    } else {
        opt_bytes(opts[0]) + options_bytes(opts.drop_first())
    }
}

/// The encoding of a whole packet: the fixed header, each option in
/// insertion order, and the End option appended last.
pub open spec fn encode_bytes(p: PacketV) -> Seq<u8> {
    header_bytes(p) + options_bytes(p.options) + seq![255u8]
}

/// Emitting one more option appends exactly its wire bytes.
proof fn lemma_options_bytes_snoc(opts: Seq<(DHCPOptionClass, Seq<u8>)>, i: int)
    requires
        0 <= i < opts.len(),
    ensures
        options_bytes(opts.subrange(0, i + 1)) == options_bytes(opts.subrange(0, i)) + opt_bytes(
            opts[i],
        ),
    decreases i,
{
    if i == 0 {
        assert(opts.subrange(0, 1).drop_first() =~= Seq::<(DHCPOptionClass, Seq<u8>)>::empty());
        assert(opts.subrange(0, 1)[0] == opts[0]);
        assert(opt_bytes(opts[0]) + Seq::<u8>::empty() =~= opt_bytes(opts[0]));
        assert(Seq::<u8>::empty() + opt_bytes(opts[0]) =~= opt_bytes(opts[0]));
        assert(opts.subrange(0, 0) =~= Seq::<(DHCPOptionClass, Seq<u8>)>::empty());
    } else {
        let tail = opts.drop_first();
        lemma_options_bytes_snoc(tail, i - 1);
        assert(opts.subrange(0, i + 1).drop_first() =~= tail.subrange(0, i));
        assert(opts.subrange(0, i).drop_first() =~= tail.subrange(0, i - 1));
        assert(opts.subrange(0, i + 1)[0] == opts[0]);
        assert(opts.subrange(0, i)[0] == opts[0]);
        assert(tail[i - 1] == opts[i]);
        assert(opt_bytes(opts[0]) + (options_bytes(tail.subrange(0, i - 1)) + opt_bytes(opts[i]))
            =~= (opt_bytes(opts[0]) + options_bytes(tail.subrange(0, i - 1))) + opt_bytes(
            opts[i],
        ));
    }
}

/// Append a slice to an output buffer.
fn append_bytes(out: &mut Vec<u8>, data: &[u8])
    ensures
        final(out)@ == old(out)@ + data@,
{
    proof {
        assert(old(out)@ + data@.subrange(0, 0) =~= old(out)@);
    }
    let mut i: usize = 0;
    while i < data.len()
        invariant
            i <= data@.len(),
            out@ == old(out)@ + data@.subrange(0, i as int),
        decreases data@.len() - i,
    {
        let b = data[i];
        out.push(b);
        proof {
            assert(old(out)@ + data@.subrange(0, i + 1) =~= (old(out)@ + data@.subrange(
                0,
                i as int,
            )).push(b));
        }
        i = i + 1;
    }
    proof {
        assert(data@.subrange(0, data@.len() as int) =~= data@);
    }
}

/// Append a run of zero bytes to an output buffer.
fn append_zeros(out: &mut Vec<u8>, n: usize)
    ensures
        final(out)@ == old(out)@ + zero_bytes(n as int),
{
    proof {
        assert(old(out)@ + zero_bytes(0) =~= old(out)@);
    }
    let mut i: usize = 0;
    while i < n
        invariant
            i <= n,
            out@ == old(out)@ + zero_bytes(i as int),
        decreases n - i,
    {
        out.push(0);
        proof {
            assert(old(out)@ + zero_bytes(i + 1) =~= (old(out)@ + zero_bytes(i as int)).push(0u8));
        }
        i = i + 1;
    }
}

impl DHCPPacket {
    /// Decode a datagram, exactly as `parse_packet_spec` describes it.
    pub fn parse(packet: &[u8]) -> (r: Result<Self, PacketParseError>)
        ensures
            r matches Ok(p) ==> parse_packet_spec(packet@) == Ok::<PacketV, PacketParseError>(p@)
                && packet_wf(p@),
            r matches Err(e) ==> parse_packet_spec(packet@) == Err::<PacketV, PacketParseError>(e),
    {
        if packet.len() < 241 {
            return Err(PacketParseError::TooShort(packet.len()));
        }

        if !(packet[236] == 99 && packet[237] == 130 && packet[238] == 83 && packet[239] == 99) {
            return Err(
                PacketParseError::InvalidMagic([packet[236], packet[237], packet[238], packet[239]]),
            );
        }

        // Parse options
        let mut options: Vec<DHCPOption> = Vec::new();
        let mut i: usize = 240;
        loop
            invariant
                240 <= i <= packet@.len(),
                241 <= packet@.len(),
                packet@[236] == 99 && packet@[237] == 130 && packet@[238] == 83 && packet@[239]
                    == 99,
                parse_options_spec(packet@, 240) == (match parse_options_spec(
                    packet@,
                    i as int,
                ) {
                    Ok(rest) => Ok::<_, PacketParseError>(opts_view(options@) + rest),
                    Err(e) => Err(e),
                }),
                forall|j: int|
                    0 <= j < options@.len() ==> (#[trigger] options@[j])@.0
                        != DHCPOptionClass::End && class_wf(options@[j]@.0) && options@[j]@.1.len()
                        <= 255,
            ensures
                parse_options_spec(packet@, 240) == Ok::<_, PacketParseError>(
                    opts_view(options@),
                ),
                forall|j: int|
                    0 <= j < options@.len() ==> (#[trigger] options@[j])@.0
                        != DHCPOptionClass::End && class_wf(options@[j]@.0) && options@[j]@.1.len()
                        <= 255,
            decreases packet@.len() - i,
        {
            if i >= packet.len() {
                return Err(PacketParseError::NoEndOption);
            }

            let tail = &packet[i..packet.len()];
            let option = match DHCPOption::parse(tail) {
                Ok(option) => option,
                Err(e) => {
                    return Err(PacketParseError::ParseOptionError(e));
                },
            };

            if let DHCPOptionClass::End = option.class {
                proof {
                    assert(opts_view(options@) + Seq::<(DHCPOptionClass, Seq<u8>)>::empty()
                        =~= opts_view(options@));
                }
                break;
            }

            let step = option.value.len() + 2;
            let ghost pre = options@;
            options.push(option);
            proof {
                let o_v = options@.last()@;
                assert(opts_view(options@) =~= opts_view(pre).push(o_v));
                match parse_options_spec(packet@, i + step) {
                    Ok(rest) => {
                        assert(opts_view(pre) + (seq![o_v] + rest) =~= opts_view(options@) + rest);
                    },
                    Err(_) => {},
                }
            }
            i = i + step;
        }

        // Parse the op code
        let message_type = match MessageType::parse(packet[0]) {
            Some(message_type) => message_type,
            None => {
                return Err(PacketParseError::InvalidMessageType(packet[0]));
            },
        };
        let hardware_type = HardwareType::parse(packet[1]);
        let hardware_address_length = packet[2];
        let hops = packet[3];
        let transaction_id = slice_to_u32(&packet[4..packet.len()]);
        let seconds = slice_to_u16(&packet[8..packet.len()]);
        let flags = slice_to_u16(&packet[10..packet.len()]);
        let client_ip_address = IPAddress::new([packet[12], packet[13], packet[14], packet[15]]);
        let your_ip_address = IPAddress::new([packet[16], packet[17], packet[18], packet[19]]);
        let server_ip_address = IPAddress::new([packet[20], packet[21], packet[22], packet[23]]);
        let gateway_ip_address = IPAddress::new([packet[24], packet[25], packet[26], packet[27]]);
        let client_hardware_address = [
            packet[28],
            packet[29],
            packet[30],
            packet[31],
            packet[32],
            packet[33],
            packet[34],
            packet[35],
            packet[36],
            packet[37],
            packet[38],
            packet[39],
            packet[40],
            packet[41],
            packet[42],
            packet[43],
        ];

        let result = DHCPPacket {
            message_type,
            hardware_type,
            hardware_address_length,
            hops,
            transaction_id,
            seconds,
            flags,
            client_ip_address,
            your_ip_address,
            server_ip_address,
            gateway_ip_address,
            client_hardware_address,
            options,
        };
        proof {
            let bytes = packet@;
            assert(bytes.subrange(4, bytes.len() as int).subrange(0, 4) =~= bytes.subrange(4, 8));
            assert(bytes.subrange(8, bytes.len() as int).subrange(0, 2) =~= bytes.subrange(8, 10));
            assert(bytes.subrange(10, bytes.len() as int).subrange(0, 2) =~= bytes.subrange(
                10,
                12,
            ));
            assert(result.client_ip_address@ =~= bytes.subrange(12, 16));
            assert(result.your_ip_address@ =~= bytes.subrange(16, 20));
            assert(result.server_ip_address@ =~= bytes.subrange(20, 24));
            assert(result.gateway_ip_address@ =~= bytes.subrange(24, 28));
            assert(result.client_hardware_address@ =~= bytes.subrange(28, 44));
        }
        Ok(result)
    }

    /// A fresh reply packet: Ethernet hardware with six significant
    /// address bytes, no hops, no seconds, and an empty option list.
    pub fn new(
        transaction_id: u32,
        flags: u16,
        client_ip_address: IPAddress,
        your_ip_address: IPAddress,
        server_ip_address: IPAddress,
        gateway_ip_address: IPAddress,
        client_hardware_address: [u8; 16],
    ) -> (r: Self)
        ensures
            r@ == (PacketV {
                message_type: MessageType::Reply,
                hardware_type: HardwareType::Ethernet,
                hardware_address_length: 6,
                hops: 0,
                transaction_id,
                seconds: 0,
                flags,
                client_ip_address: client_ip_address@,
                your_ip_address: your_ip_address@,
                server_ip_address: server_ip_address@,
                gateway_ip_address: gateway_ip_address@,
                client_hardware_address: client_hardware_address@,
                options: Seq::empty(),
            }),
    {
        let r = DHCPPacket {
            message_type: MessageType::Reply,
            hardware_type: HardwareType::Ethernet,
            hardware_address_length: 6,
            hops: 0,
            transaction_id,
            seconds: 0,
            flags,
            client_ip_address,
            your_ip_address,
            server_ip_address,
            gateway_ip_address,
            client_hardware_address,
            options: Vec::new(),
        };
        proof {
            assert(opts_view(r.options@) =~= Seq::<(DHCPOptionClass, Seq<u8>)>::empty());
            assert(r@ =~= (PacketV {
                message_type: MessageType::Reply,
                hardware_type: HardwareType::Ethernet,
                hardware_address_length: 6,
                hops: 0,
                transaction_id,
                seconds: 0,
                flags,
                client_ip_address: client_ip_address@,
                your_ip_address: your_ip_address@,
                server_ip_address: server_ip_address@,
                gateway_ip_address: gateway_ip_address@,
                client_hardware_address: client_hardware_address@,
                options: Seq::empty(),
            }));
        }
        r
    }

    /// Append one option to the packet's option list.
    pub fn add_option(&mut self, class: DHCPOptionClass, value: &[u8])
        ensures
            final(self)@ == (PacketV {
                options: old(self)@.options.push((class, value@)),
                ..old(self)@
            }),
    {
        let mut v: Vec<u8> = Vec::new();
        append_bytes(&mut v, value);
        let ghost pre = self.options@;
        self.options.push(DHCPOption { class, value: v });
        proof {
            assert(v@ =~= value@);
            assert(opts_view(self.options@) =~= opts_view(pre).push((class, value@)));
            assert(self@ =~= (PacketV { options: old(self)@.options.push((class, value@)), ..old(
                self,
            )@ }));
        }
    }

    /// The value of the first option of the given class, if any.
    pub fn get_option(&self, class: DHCPOptionClass) -> (r: Option<&Vec<u8>>)
        ensures
            r matches Some(v) ==> find_option(self@.options, class) == Some(v@),
            r is None ==> find_option(self@.options, class) == None::<Seq<u8>>,
    {
        let mut i: usize = 0;
        while i < self.options.len()
            invariant
                i <= self.options@.len(),
                find_option(self@.options, class) == find_option_from(
                    self@.options,
                    class,
                    i as int,
                ),
            decreases self.options@.len() - i,
        {
            if self.options[i].class == class {
                return Some(&self.options[i].value);
            }
            i = i + 1;
        }
        None
    }

    /// Encode the packet, exactly as `encode_bytes` describes it.
    pub fn generate(&self) -> (r: Vec<u8>)
        requires
            forall|j: int|
                0 <= j < self@.options.len() ==> (#[trigger] self@.options[j]).1.len() <= 255,
        ensures
            r@ == encode_bytes(self@),
    {
        let mut out: Vec<u8> = Vec::new();
        out.push(self.message_type.generate());
        out.push(self.hardware_type.generate());
        out.push(self.hardware_address_length);
        out.push(self.hops);
        let xid = u32_to_slice(self.transaction_id);
        append_bytes(&mut out, xid.as_slice());
        let secs = u16_to_slice(self.seconds);
        append_bytes(&mut out, secs.as_slice());
        let flg = u16_to_slice(self.flags);
        append_bytes(&mut out, flg.as_slice());
        append_bytes(&mut out, self.client_ip_address.as_slice());
        append_bytes(&mut out, self.your_ip_address.as_slice());
        append_bytes(&mut out, self.server_ip_address.as_slice());
        append_bytes(&mut out, self.gateway_ip_address.as_slice());
        append_bytes(&mut out, self.client_hardware_address.as_slice());
        append_zeros(&mut out, 64);
        append_zeros(&mut out, 128);
        out.push(99);
        out.push(130);
        out.push(83);
        out.push(99);
        proof {
            assert(out@ =~= header_bytes(self@));
            assert(out@ == header_bytes(self@) + options_bytes(self@.options.subrange(0, 0))) by {
                assert(self@.options.subrange(0, 0)
                    =~= Seq::<(DHCPOptionClass, Seq<u8>)>::empty());
                assert(header_bytes(self@) + Seq::<u8>::empty() =~= header_bytes(self@));
            }
        }
        let mut idx: usize = 0;
        while idx < self.options.len()
            invariant
                idx <= self.options@.len(),
                self@.options.len() == self.options@.len(),
                forall|j: int|
                    0 <= j < self@.options.len() ==> (#[trigger] self@.options[j]).1.len() <= 255,
                out@ == header_bytes(self@) + options_bytes(self@.options.subrange(0, idx as int)),
            decreases self.options@.len() - idx,
        {
            proof {
                assert(self@.options[idx as int] == self.options@[idx as int]@);
            }
            let ob = self.options[idx].generate();
            append_bytes(&mut out, ob.as_slice());
            proof {
                lemma_options_bytes_snoc(self@.options, idx as int);
                assert(header_bytes(self@) + options_bytes(self@.options.subrange(0, idx + 1))
                    =~= (header_bytes(self@) + options_bytes(
                    self@.options.subrange(0, idx as int),
                )) + opt_bytes(self@.options[idx as int]));
            }
            idx = idx + 1;
        }
        out.push(255);
        proof {
            assert(self@.options.subrange(0, self@.options.len() as int) =~= self@.options);
            assert(out@ =~= encode_bytes(self@));
        }
        out
    }

    pub fn message_type(&self) -> (r: MessageType)
        ensures
            r == self@.message_type,
    {
        self.message_type
    }

    pub fn hardware_type(&self) -> (r: HardwareType)
        ensures
            r == self@.hardware_type,
    {
        self.hardware_type
    }

    pub fn hardware_address_length(&self) -> (r: u8)
        ensures
            r == self@.hardware_address_length,
    {
        self.hardware_address_length
    }

    pub fn transaction_id(&self) -> (r: u32)
        ensures
            r == self@.transaction_id,
    {
        self.transaction_id
    }

    pub fn flags(&self) -> (r: u16)
        ensures
            r == self@.flags,
    {
        self.flags
    }

    pub fn client_ip_address(&self) -> (r: IPAddress)
        ensures
            r@ == self@.client_ip_address,
    {
        self.client_ip_address
    }

    pub fn your_ip_address(&self) -> (r: IPAddress)
        ensures
            r@ == self@.your_ip_address,
    {
        self.your_ip_address
    }

    pub fn server_ip_address(&self) -> (r: IPAddress)
        ensures
            r@ == self@.server_ip_address,
    {
        self.server_ip_address
    }

    pub fn gateway_ip_address(&self) -> (r: IPAddress)
        ensures
            r@ == self@.gateway_ip_address,
    {
        self.gateway_ip_address
    }

    pub fn client_hardware_address(&self) -> (r: &[u8; 16])
        ensures
            r@ == self@.client_hardware_address,
    {
        &self.client_hardware_address
    }
}

/// The value of the first option of the given class at or after index `i`.
pub open spec fn find_option_from(
    opts: Seq<(DHCPOptionClass, Seq<u8>)>,
    class: DHCPOptionClass,
    i: int,
) -> Option<Seq<u8>>
    decreases opts.len() - i,
{
    if i < 0 || i >= opts.len() {
        None
    } else if opts[i].0 == class {
        Some(opts[i].1)
    } else {
        find_option_from(opts, class, i + 1)
    }
}

/// The value of the first option of the given class, if any.
pub open spec fn find_option(
    opts: Seq<(DHCPOptionClass, Seq<u8>)>,
    class: DHCPOptionClass,
) -> Option<Seq<u8>> {
    find_option_from(opts, class, 0)
}

/// Any packet the encoder emits decodes back to itself: the wire format
/// loses nothing of a well-formed packet.
pub proof fn lemma_wire_round_trip(p: PacketV)
    requires
        packet_wf(p),
    ensures
        parse_packet_spec(encode_bytes(p)) == Ok::<PacketV, PacketParseError>(p),
{
    let bytes = encode_bytes(p);
    let hdr = header_bytes(p);
    let ob = options_bytes(p.options);
    assert(hdr.len() == 240);
    assert(bytes.len() == 241 + ob.len());
    lemma_u32_bytes_val(p.transaction_id);
    lemma_u16_bytes_val(p.seconds);
    lemma_u16_bytes_val(p.flags);
    assert(bytes[236] == 99 && bytes[237] == 130 && bytes[238] == 83 && bytes[239] == 99);
    assert(bytes.subrange(4, 8) =~= u32_bytes(p.transaction_id));
    assert(bytes.subrange(8, 10) =~= u16_bytes(p.seconds));
    assert(bytes.subrange(10, 12) =~= u16_bytes(p.flags));
    assert(bytes.subrange(12, 16) =~= p.client_ip_address);
    assert(bytes.subrange(16, 20) =~= p.your_ip_address);
    assert(bytes.subrange(20, 24) =~= p.server_ip_address);
    assert(bytes.subrange(24, 28) =~= p.gateway_ip_address);
    assert(bytes.subrange(28, 44) =~= p.client_hardware_address);
    assert(bytes[0] == mt_code(p.message_type));
    assert(mt_of(mt_code(p.message_type)) == Some(p.message_type));
    assert(bytes[1] == ht_code(p.hardware_type));
    assert(bytes.subrange(240, bytes.len() as int) =~= ob + seq![255u8]);
    lemma_parse_options_round_trip(bytes, 240, p.options);
    match parse_packet_spec(bytes) {
        Ok(pv) => {
            assert(pv =~= p);
        },
        Err(_) => {
            assert(false);
        },
    }
}

/// Parsing an encoded option list from offset `i` recovers the list.
proof fn lemma_parse_options_round_trip(
    bytes: Seq<u8>,
    i: int,
    opts: Seq<(DHCPOptionClass, Seq<u8>)>,
)
    requires
        0 <= i <= bytes.len(),
        bytes.subrange(i, bytes.len() as int) == options_bytes(opts) + seq![255u8],
        forall|j: int|
            0 <= j < opts.len() ==> (#[trigger] opts[j]).0 != DHCPOptionClass::End && class_wf(
                opts[j].0,
            ) && opts[j].1.len() <= 255,
    ensures
        parse_options_spec(bytes, i) == Ok::<_, PacketParseError>(opts),
    decreases opts.len(),
{
    let s = bytes.subrange(i, bytes.len() as int);
    if opts.len() == 0 {
        assert(s.len() == 1);
        assert(s[0] == 255);
        assert(bytes[i] == 255);
        assert(opt_parse(s) == Ok::<_, ParseOptionError>((
            DHCPOptionClass::End,
            Seq::<u8>::empty(),
        )));
        assert(parse_options_spec(bytes, i) == Ok::<_, PacketParseError>(
            Seq::<(DHCPOptionClass, Seq<u8>)>::empty(),
        ));
        assert(Seq::<(DHCPOptionClass, Seq<u8>)>::empty() =~= opts);
    } else {
        let o = opts[0];
        let rest = opts.drop_first();
        let obs = opt_bytes(o);
        assert(options_bytes(opts) == obs + options_bytes(rest));
        assert((obs + options_bytes(rest)) + seq![255u8] =~= obs + (options_bytes(rest) + seq![
            255u8,
        ]));
        assert(obs.len() == 2 + o.1.len());
        assert(s[0] == class_code(o.0));
        // A well-formed class other than End never has the End code.
        assert(s[0] != 255) by {
            if class_code(o.0) == 255 {
                assert(class_of(255) == DHCPOptionClass::End);
            }
        }
        assert(s[1] == o.1.len() as u8);
        assert(s.len() >= o.1.len() + 2);
        assert(s.subrange(2, 2 + (o.1.len() as u8) as int) =~= o.1);
        assert(opt_parse(s) == Ok::<_, ParseOptionError>((o.0, o.1)));
        let next = i + 2 + o.1.len();
        assert(bytes.subrange(next, bytes.len() as int) =~= s.subrange(
            2 + o.1.len() as int,
            s.len() as int,
        ));
        assert(s.subrange(2 + o.1.len() as int, s.len() as int) =~= options_bytes(rest) + seq![
            255u8,
        ]);
        lemma_parse_options_round_trip(bytes, next, rest);
        assert(seq![(o.0, o.1)] + rest =~= opts);
    }
}

} // verus!
