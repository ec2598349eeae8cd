//! The TLV options of a DHCP packet: the option codes this server uses,
//! and the single-option codec.

use vstd::prelude::*;

verus! {

/// The option codes this server reads or emits. Any other code is carried
/// through unchanged as `Other`.
#[derive(Debug, Clone, Copy, PartialEq, Eq, Structural)]
pub enum DHCPOptionClass {
    SubnetMask,
    Gateways,
    DomainServer,
    BroadcastAddress,
    AddressRequest,
    AddressTime,
    DHCPMsgType,
    DHCPServerID,
    RenewalTime,
    RebindingTime,
    ClientID,
    End,
    Other(u8),
}

/// The option class a wire code stands for.
pub open spec fn class_of(value: u8) -> DHCPOptionClass {
    match value {
        1u8 => DHCPOptionClass::SubnetMask,
        3u8 => DHCPOptionClass::Gateways,
        6u8 => DHCPOptionClass::DomainServer,
        28u8 => DHCPOptionClass::BroadcastAddress,
        50u8 => DHCPOptionClass::AddressRequest,
        51u8 => DHCPOptionClass::AddressTime,
        53u8 => DHCPOptionClass::DHCPMsgType,
        54u8 => DHCPOptionClass::DHCPServerID,
        58u8 => DHCPOptionClass::RenewalTime,
        59u8 => DHCPOptionClass::RebindingTime,
        61u8 => DHCPOptionClass::ClientID,
        255u8 => DHCPOptionClass::End,
        _ => DHCPOptionClass::Other(value),
    }
}

/// The wire code of an option class.
pub open spec fn class_code(c: DHCPOptionClass) -> u8 {
    match c {
        DHCPOptionClass::SubnetMask => 1u8,
        DHCPOptionClass::Gateways => 3u8,
        DHCPOptionClass::DomainServer => 6u8,
        DHCPOptionClass::BroadcastAddress => 28u8,
        DHCPOptionClass::AddressRequest => 50u8,
        DHCPOptionClass::AddressTime => 51u8,
        DHCPOptionClass::DHCPMsgType => 53u8,
        DHCPOptionClass::DHCPServerID => 54u8,
        DHCPOptionClass::RenewalTime => 58u8,
        DHCPOptionClass::RebindingTime => 59u8,
        DHCPOptionClass::ClientID => 61u8,
        DHCPOptionClass::End => 255u8,
        DHCPOptionClass::Other(value) => value,
    }
}

/// An option class value survives a trip through its wire code. This rules
/// out only an `Other` payload that collides with a named code.
pub open spec fn class_wf(c: DHCPOptionClass) -> bool {
    class_of(class_code(c)) == c
}

impl DHCPOptionClass {
    pub fn parse(value: u8) -> (r: Self)
        ensures
            r == class_of(value),
            class_wf(r),
    {
        match value {
            1 => DHCPOptionClass::SubnetMask,
            3 => DHCPOptionClass::Gateways,
            6 => DHCPOptionClass::DomainServer,
            28 => DHCPOptionClass::BroadcastAddress,
            50 => DHCPOptionClass::AddressRequest,
            51 => DHCPOptionClass::AddressTime,
            53 => DHCPOptionClass::DHCPMsgType,
            54 => DHCPOptionClass::DHCPServerID,
            58 => DHCPOptionClass::RenewalTime,
            59 => DHCPOptionClass::RebindingTime,
            61 => DHCPOptionClass::ClientID,
            255 => DHCPOptionClass::End,
            _ => DHCPOptionClass::Other(value),
        }
    }

    pub fn generate(&self) -> (r: u8)
        ensures
            r == class_code(*self),
    {
        match self {
            DHCPOptionClass::SubnetMask => 1,
            DHCPOptionClass::Gateways => 3,
            DHCPOptionClass::DomainServer => 6,
            DHCPOptionClass::BroadcastAddress => 28,
            DHCPOptionClass::AddressRequest => 50,
            DHCPOptionClass::AddressTime => 51,
            DHCPOptionClass::DHCPMsgType => 53,
            DHCPOptionClass::DHCPServerID => 54,
            DHCPOptionClass::RenewalTime => 58,
            DHCPOptionClass::RebindingTime => 59,
            DHCPOptionClass::ClientID => 61,
            DHCPOptionClass::End => 255,
            DHCPOptionClass::Other(value) => *value,
        }
    }
}

/// One TLV option: a class and its value bytes. The End option carries no
/// value.
#[derive(Debug)]
pub struct DHCPOption {
    pub class: DHCPOptionClass,
    pub value: Vec<u8>,
}

#[derive(Debug, Clone, Copy, PartialEq, Eq, Structural)]
pub enum ParseOptionError {
    MissingClass,
    MissingLength,
    InvalidLength,
}

impl View for DHCPOption {
    type V = (DHCPOptionClass, Seq<u8>);

    open spec fn view(&self) -> (DHCPOptionClass, Seq<u8>) {
        (self.class, self.value@)
    }
}

/// What parsing one option from the front of `s` yields: the class and
/// value on success, or the first error the scan meets.
pub open spec fn opt_parse(s: Seq<u8>) -> Result<(DHCPOptionClass, Seq<u8>), ParseOptionError> {
    if s.len() == 0 {
        Err(ParseOptionError::MissingClass)
    } else if s[0] == 255 {
        Ok((DHCPOptionClass::End, Seq::empty()))
    } else if s.len() == 1 {
        Err(ParseOptionError::MissingLength)
    } else if s.len() < s[1] + 2 {
        Err(ParseOptionError::InvalidLength)
    } else {
        Ok((class_of(s[0]), s.subrange(2, 2 + s[1])))
    }
}

/// The wire bytes of one option: its code, then for every class but End a
/// length byte and the value bytes.
pub open spec fn opt_bytes(o: (DHCPOptionClass, Seq<u8>)) -> Seq<u8> {
    if o.0 == DHCPOptionClass::End {
        seq![255u8]
    } else {
        seq![class_code(o.0), o.1.len() as u8] + o.1
    }
}

impl DHCPOption {
    pub fn new(class: DHCPOptionClass, value: Vec<u8>) -> (r: Self)
        ensures
            r@ == (class, value@),
    {
        DHCPOption { class, value }
    }

    /// Parse one option from the front of the slice.
    pub fn parse(slice: &[u8]) -> (r: Result<Self, ParseOptionError>)
        ensures
            r matches Ok(o) ==> opt_parse(slice@) == Ok::<_, ParseOptionError>(o@) && class_wf(
                o.class,
            ),
            r matches Err(e) ==> opt_parse(slice@) == Err::<(DHCPOptionClass, Seq<u8>), _>(e),
    {
        if slice.len() == 0 {
            return Err(ParseOptionError::MissingClass);
        }

        let class = DHCPOptionClass::parse(slice[0]);

        if slice[0] == 255 {
            let value: Vec<u8> = Vec::new();
            proof {
                assert(value@ =~= Seq::<u8>::empty());
            }
            return Ok(DHCPOption { class, value });
        } else if slice.len() == 1 {
            return Err(ParseOptionError::MissingLength);
        }

        let length = slice[1] as usize;
        if slice.len() < length + 2 {
            return Err(ParseOptionError::InvalidLength);
        }

        let mut value = Vec::new();
        let mut i: usize = 0;
        while i < length
            invariant
                i <= length,
                length + 2 <= slice@.len(),
                length == slice@[1],
                value@ == slice@.subrange(2, 2 + i),
            decreases length - i,
        {
            value.push(slice[i + 2]);
            proof {
                assert(value@ =~= slice@.subrange(2, 2 + i + 1));
            }
            i = i + 1;
        }
        proof {
            assert(value@ =~= slice@.subrange(2, 2 + slice@[1]));
        }
        Ok(DHCPOption { class, value })
    }

    pub fn class(&self) -> (r: DHCPOptionClass)
        ensures
            r == self.class,
    {
        self.class
    }

    pub fn value(&self) -> (r: &[u8])
        ensures
            r@ == self.value@,
    {
        self.value.as_slice()
    }

    /// The wire bytes of this option.
    pub fn generate(&self) -> (r: Vec<u8>)
        requires
            self.value@.len() <= 255,
        ensures
            r@ == opt_bytes(self@),
    {
        let mut vec = Vec::new();
        vec.push(self.class.generate());

        if let DHCPOptionClass::End = self.class {
            proof {
                assert(vec@ =~= opt_bytes(self@));
            }
            return vec;
        }

        vec.push(self.value.len() as u8);

        let mut i: usize = 0;
        while i < self.value.len()
            invariant
                i <= self.value@.len(),
                self.value@.len() <= 255,
                self.class != DHCPOptionClass::End,
                vec@ == seq![class_code(self.class), self.value@.len() as u8]
                    + self.value@.subrange(0, i as int),
            decreases self.value@.len() - i,
        {
            let b = self.value[i];
            vec.push(b);
            proof {
                assert(seq![class_code(self.class), self.value@.len() as u8]
                    + self.value@.subrange(0, i + 1) =~= (seq![
                    class_code(self.class),
                    self.value@.len() as u8,
                ] + self.value@.subrange(0, i as int)).push(b));
            }
            i = i + 1;
        }
        proof {
            assert(self.value@.subrange(0, self.value@.len() as int) =~= self.value@);
        }
        vec
    }
}

} // verus!
