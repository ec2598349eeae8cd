//! IPv4 and MAC address values: the numeric model of an address, the
//! lexicographic order, and the increment operator that skips the host
//! addresses ending in .0 and .255.

use crate::util::{
    dec_parse, find_sep, lemma_opt_prepend_assoc, lemma_opt_prepend_empty, opt_prepend, parse_dec,
    scan_sep,
};
use vstd::prelude::*;

verus! {

/// The dotted-decimal form of an IPv4 address: exactly four fields
/// separated by dots, each a decimal number no greater than 255, with an
/// optional leading plus sign as the standard library's parser accepts.
pub open spec fn ip_parse(s: Seq<char>) -> Option<Seq<u8>> {
    ip_parse_from(s, 0, 4)
}

/// Parse `parts` remaining dot-separated octet fields starting at `from`.
pub open spec fn ip_parse_from(s: Seq<char>, from: int, parts: int) -> Option<Seq<u8>>
    decreases parts,
{
    if parts <= 1 {
        match dec_parse(s.subrange(from, s.len() as int), 255) {
            Some(v) => Some(seq![v as u8]),
            None => None,
        }
    } else {
        match find_sep(s, from, '.') {
            Some(k) => match dec_parse(s.subrange(from, k), 255) {
                Some(v) => opt_prepend(seq![v as u8], ip_parse_from(s, k + 1, parts - 1)),
                None => None,
            },
            None => None,
        }
    }
}

/// Whether a character is a hexadecimal digit of either case.
pub open spec fn is_hex_digit(c: char) -> bool {
    48 <= c as int <= 57 || 65 <= c as int <= 70 || 97 <= c as int <= 102
}

/// The value of a hexadecimal digit character.
pub open spec fn hex_digit_of(c: char) -> int {
    if 48 <= c as int <= 57 {
        c as int - 48
    } else if 65 <= c as int <= 70 {
        c as int - 55
    } else {
        c as int - 87
    }
}

/// One field of a MAC address: exactly two hexadecimal digits.
pub open spec fn mac_part(s: Seq<char>) -> Option<u8> {
    if s.len() == 2 && is_hex_digit(s[0]) && is_hex_digit(s[1]) {
        Some((hex_digit_of(s[0]) * 16 + hex_digit_of(s[1])) as u8)
    } else {
        None
    }
}

/// The colon-separated form of a MAC address: exactly six fields of two
/// hexadecimal digits each.
pub open spec fn mac_parse(s: Seq<char>) -> Option<Seq<u8>> {
    mac_parse_from(s, 0, 6)
}

/// Parse `parts` remaining colon-separated fields starting at `from`.
pub open spec fn mac_parse_from(s: Seq<char>, from: int, parts: int) -> Option<Seq<u8>>
    decreases parts,
{
    if parts <= 1 {
        match mac_part(s.subrange(from, s.len() as int)) {
            Some(v) => Some(seq![v]),
            None => None,
        }
    } else {
        match find_sep(s, from, ':') {
            Some(k) => match mac_part(s.subrange(from, k)) {
                Some(v) => opt_prepend(seq![v], mac_parse_from(s, k + 1, parts - 1)),
                None => None,
            },
            None => None,
        }
    }
}

/// An IPv4 address as four octets, most significant first.
#[derive(Debug, Clone, Copy, Eq, Hash)]
pub struct IPAddress(pub [u8; 4]);

/// A MAC address as six octets.
#[derive(Debug, Clone, Copy, Eq, Hash)]
pub struct MACAddress(pub [u8; 6]);

impl PartialEq for IPAddress {
    fn eq(&self, other: &Self) -> (r: bool) {
        self.0[0] == other.0[0] && self.0[1] == other.0[1] && self.0[2] == other.0[2]
            && self.0[3] == other.0[3]
    }
}

impl vstd::std_specs::cmp::PartialEqSpecImpl for IPAddress {
    open spec fn obeys_eq_spec() -> bool {
        true
    }

    open spec fn eq_spec(&self, other: &Self) -> bool {
        self.0@ =~= other.0@
    }
}

impl PartialEq for MACAddress {
    fn eq(&self, other: &Self) -> (r: bool) {
        self.0[0] == other.0[0] && self.0[1] == other.0[1] && self.0[2] == other.0[2]
            && self.0[3] == other.0[3] && self.0[4] == other.0[4] && self.0[5] == other.0[5]
    }
}

impl vstd::std_specs::cmp::PartialEqSpecImpl for MACAddress {
    open spec fn obeys_eq_spec() -> bool {
        true
    }

    open spec fn eq_spec(&self, other: &Self) -> bool {
        self.0@ =~= other.0@
    }
}

impl View for IPAddress {
    type V = Seq<u8>;

    open spec fn view(&self) -> Seq<u8> {
        self.0@
    }
}

impl View for MACAddress {
    type V = Seq<u8>;

    open spec fn view(&self) -> Seq<u8> {
        self.0@
    }
}

/// Numeric value of an IPv4 address: the four octets read as one
/// big-endian 32-bit number.
pub open spec fn ip_num(s: Seq<u8>) -> int {
    (s[0] as int) * 0x1000000 + (s[1] as int) * 0x10000 + (s[2] as int) * 0x100 + (s[3] as int)
}

/// The successor of an address under the increment operator: the smallest
/// larger number whose last octet is neither 0 nor 255.
pub open spec fn ip_next(n: int) -> int {
    if (n + 1) % 0x100 == 0 {
        n + 2
    } else if (n + 1) % 0x100 == 0xFF {
        n + 3
    } else {
        n + 1
    }
}

impl IPAddress {
    pub fn new(address: [u8; 4]) -> (r: Self)
        ensures
            r@ == address@,
    {
        IPAddress(address)
    }

    pub fn as_slice(&self) -> (r: &[u8])
        ensures
            r@ == self@,
    {
        &self.0
    }

    /// Parse the dotted-decimal form, as `ip_parse` describes it.
    pub fn parse(s: &str) -> (r: Option<Self>)
        ensures
            r matches Some(ip) ==> ip_parse(s@) == Some(ip@),
            r is None ==> ip_parse(s@) == None::<Seq<u8>>,
    {
        let len = s.unicode_len();
        let mut octets = [0u8, 0u8, 0u8, 0u8];
        let mut from: usize = 0;
        let mut part: usize = 0;
        proof {
            lemma_opt_prepend_empty(ip_parse_from(s@, 0, 4));
            assert(octets@.subrange(0, 0) =~= Seq::<u8>::empty());
        }
        while part < 3
            invariant
                part <= 3,
                from <= len,
                len == s@.len(),
                ip_parse(s@) == opt_prepend(
                    octets@.subrange(0, part as int),
                    ip_parse_from(s@, from as int, 4 - part),
                ),
            decreases 3 - part,
        {
            let k = match scan_sep(s, from, '.') {
                Some(k) => k,
                None => {
                    return None;
                },
            };
            let part_str = s.substring_char(from, k);
            let v = match parse_dec(part_str, 255) {
                Some(v) => v,
                None => {
                    return None;
                },
            };
            let ghost pre = octets@;
            octets[part] = v as u8;
            proof {
                assert(octets@.subrange(0, part as int) =~= pre.subrange(0, part as int));
                assert(octets@.subrange(0, part + 1) =~= pre.subrange(0, part as int) + seq![
                    v as u8,
                ]);
                lemma_opt_prepend_assoc(
                    pre.subrange(0, part as int),
                    seq![v as u8],
                    ip_parse_from(s@, k + 1, 3 - part),
                );
            }
            from = k + 1;
            part = part + 1;
        }
        let part_str = s.substring_char(from, len);
        let v = match parse_dec(part_str, 255) {
            Some(v) => v,
            None => {
                return None;
            },
        };
        let ghost pre = octets@;
        octets[3] = v as u8;
        proof {
            assert(octets@ =~= pre.subrange(0, 3) + seq![v as u8]);
        }
        Some(IPAddress(octets))
    }

    /// Whether this address is numerically no greater than `other`.
    pub fn le(&self, other: &IPAddress) -> (r: bool)
        ensures
            r == (ip_num(self@) <= ip_num(other@)),
    {
        if self.0[0] != other.0[0] {
            self.0[0] < other.0[0]
        } else if self.0[1] != other.0[1] {
            self.0[1] < other.0[1]
        } else if self.0[2] != other.0[2] {
            self.0[2] < other.0[2]
        } else {
            self.0[3] <= other.0[3]
        }
    }

    /// Whether this is the all-zero address 0.0.0.0.
    pub fn is_zero(&self) -> (r: bool)
        ensures
            r == (self@ =~= zero_ip()),
    {
        self.0[0] == 0 && self.0[1] == 0 && self.0[2] == 0 && self.0[3] == 0
    }

    /// Advance to the next address, skipping any whose last octet would be
    /// 0 or 255, carrying into the upper octets as needed.
    pub fn increament(&mut self)
        requires
            ip_num(old(self)@) < 0xFFFFFFFE,
        ensures
            ip_num(final(self)@) == ip_next(ip_num(old(self)@)),
            final(self)@[3] != 0 && final(self)@[3] != 0xFF,
    {
        let ghost n = ip_num(self@);
        if self.0[3] < 0xFE {
            self.0[3] = self.0[3] + 1;
            proof {
                assert(n % 0x100 == old(self)@[3] as int) by {
                    lemma_ip_num_low_octet(old(self)@);
                }
                assert(ip_num(self@) == n + 1);
                assert((n + 1) % 0x100 == old(self)@[3] + 1) by {
                    lemma_ip_num_low_octet(self@);
                }
            }
        } else {
            let ghost low = self.0[3];
            self.0[3] = 1;
            if self.0[2] < 0xFF {
                self.0[2] = self.0[2] + 1;
            } else {
                self.0[2] = 0;
                if self.0[1] < 0xFF {
                    self.0[1] = self.0[1] + 1;
                } else {
                    self.0[1] = 0;
                    self.0[0] = self.0[0] + 1;
                }
            }
            proof {
                assert(n % 0x100 == low as int) by {
                    lemma_ip_num_low_octet(old(self)@);
                }
                assert(ip_num(self@) == n - low + 0x100 + 1);
                assert((n + 1) % 0x100 == (low + 1) % 0x100) by {
                    lemma_ip_num_low_octet(old(self)@);
                    assert((n + 1) % 0x100 == (n % 0x100 + 1) % 0x100) by (nonlinear_arith)
                        requires n >= 0;
                }
            }
        }
    }
}

/// The all-zero IPv4 address.
pub open spec fn zero_ip() -> Seq<u8> {
    seq![0u8, 0u8, 0u8, 0u8]
}

/// The last octet is the numeric value modulo 256.
pub proof fn lemma_ip_num_low_octet(s: Seq<u8>)
    requires
        s.len() == 4,
    ensures
        ip_num(s) % 0x100 == s[3] as int,
        ip_num(s) >= 0,
{
    let p = (s[0] as int) * 0x10000 + (s[1] as int) * 0x100 + (s[2] as int);
    assert(ip_num(s) == p * 0x100 + (s[3] as int));
    assert((p * 0x100 + (s[3] as int)) % 0x100 == s[3] as int) by (nonlinear_arith)
        requires
            0 <= s[3] < 0x100,
            p >= 0,
    ;
}

/// Each octet can be read back out of the numeric value.
pub proof fn lemma_ip_num_octets(s: Seq<u8>)
    requires
        s.len() == 4,
    ensures
        s[0] as int == ip_num(s) / 0x1000000,
        s[1] as int == (ip_num(s) / 0x10000) % 0x100,
        s[2] as int == (ip_num(s) / 0x100) % 0x100,
        s[3] as int == ip_num(s) % 0x100,
        0 <= ip_num(s) <= 0xFFFFFFFF,
{
    let a = s[0] as int;
    let b = s[1] as int;
    let c = s[2] as int;
    let d = s[3] as int;
    let n = ip_num(s);
    assert(n / 0x1000000 == a && (n / 0x10000) % 0x100 == b && (n / 0x100) % 0x100 == c && n
        % 0x100 == d) by (nonlinear_arith)
        requires
            n == a * 0x1000000 + b * 0x10000 + c * 0x100 + d,
            0 <= a < 0x100,
            0 <= b < 0x100,
            0 <= c < 0x100,
            0 <= d < 0x100,
    ;
}

/// The four octets of a numeric address value.
pub open spec fn ip_octets(n: int) -> Seq<u8> {
    seq![
        (n / 0x1000000) as u8,
        ((n / 0x10000) % 0x100) as u8,
        ((n / 0x100) % 0x100) as u8,
        (n % 0x100) as u8,
    ]
}

/// Reading the octets of an address's numeric value gives the address.
pub proof fn lemma_ip_octets_of_num(s: Seq<u8>)
    requires
        s.len() == 4,
    ensures
        ip_octets(ip_num(s)) =~= s,
{
    lemma_ip_num_octets(s);
}

/// Distinct four-octet addresses have distinct numeric values.
pub proof fn lemma_ip_num_injective(s1: Seq<u8>, s2: Seq<u8>)
    requires
        s1.len() == 4,
        s2.len() == 4,
        ip_num(s1) == ip_num(s2),
    ensures
        s1 =~= s2,
{
    lemma_ip_num_octets(s1);
    lemma_ip_num_octets(s2);
}

/// The increment operator never produces an address whose last octet is
/// 0 or 255.
pub proof fn lemma_increment_skips_reserved(n: int)
    requires
        n >= 0,
    ensures
        ip_next(n) % 0x100 != 0,
        ip_next(n) % 0x100 != 0xFF,
        n < ip_next(n) <= n + 3,
{
    assert((n + 2) % 0x100 == ((n + 1) % 0x100 + 1) % 0x100) by (nonlinear_arith)
        requires n >= 0;
    assert((n + 3) % 0x100 == ((n + 1) % 0x100 + 2) % 0x100) by (nonlinear_arith)
        requires n >= 0;
}

/// Convert one hexadecimal digit character of either case.
fn hex_val(c: char) -> (r: Option<u8>)
    ensures
        r matches Some(v) ==> is_hex_digit(c) && hex_digit_of(c) == v as int,
        r is None ==> !is_hex_digit(c),
{
    let d = c as u32;
    if 48 <= d && d <= 57 {
        Some((d - 48) as u8)
    } else if 65 <= d && d <= 70 {
        Some((d - 55) as u8)
    } else if 97 <= d && d <= 102 {
        Some((d - 87) as u8)
    } else {
        None
    }
}

impl MACAddress {
    pub fn new(address: [u8; 6]) -> (r: Self)
        ensures
            r@ == address@,
    {
        MACAddress(address)
    }

    /// Parse the colon-separated form, as `mac_parse` describes it.
    pub fn parse(s: &str) -> (r: Option<Self>)
        ensures
            r matches Some(mac) ==> mac_parse(s@) == Some(mac@),
            r is None ==> mac_parse(s@) == None::<Seq<u8>>,
    {
        let len = s.unicode_len();
        let mut octets = [0u8, 0u8, 0u8, 0u8, 0u8, 0u8];
        let mut from: usize = 0;
        let mut part: usize = 0;
        proof {
            lemma_opt_prepend_empty(mac_parse_from(s@, 0, 6));
            assert(octets@.subrange(0, 0) =~= Seq::<u8>::empty());
        }
        while part < 5
            invariant
                part <= 5,
                from <= len,
                len == s@.len(),
                mac_parse(s@) == opt_prepend(
                    octets@.subrange(0, part as int),
                    mac_parse_from(s@, from as int, 6 - part),
                ),
            decreases 5 - part,
        {
            let k = match scan_sep(s, from, ':') {
                Some(k) => k,
                None => {
                    return None;
                },
            };
            let part_str = s.substring_char(from, k);
            let v = match Self::parse_part(part_str) {
                Some(v) => v,
                None => {
                    return None;
                },
            };
            let ghost pre = octets@;
            octets[part] = v;
            proof {
                assert(octets@.subrange(0, part as int) =~= pre.subrange(0, part as int));
                assert(octets@.subrange(0, part + 1) =~= pre.subrange(0, part as int) + seq![v]);
                lemma_opt_prepend_assoc(
                    pre.subrange(0, part as int),
                    seq![v],
                    mac_parse_from(s@, k + 1, 5 - part),
                );
            }
            from = k + 1;
            part = part + 1;
        }
        let part_str = s.substring_char(from, len);
        let v = match Self::parse_part(part_str) {
            Some(v) => v,
            None => {
                return None;
            },
        };
        let ghost pre = octets@;
        octets[5] = v;
        proof {
            assert(octets@ =~= pre.subrange(0, 5) + seq![v]);
        }
        Some(MACAddress(octets))
    }

    /// Parse one field of the colon-separated form: two hexadecimal digits.
    fn parse_part(s: &str) -> (r: Option<u8>)
        ensures
            r == mac_part(s@),
    {
        if s.unicode_len() != 2 {
            return None;
        }
        let c0 = s.get_char(0);
        let c1 = s.get_char(1);
        match (hex_val(c0), hex_val(c1)) {
            (Some(h), Some(l)) => Some(h * 16 + l),
            _ => None,
        }
    }

    pub fn as_slice(&self) -> (r: &[u8])
        ensures
            r@ == self@,
    {
        &self.0
    }
}

} // verus!
