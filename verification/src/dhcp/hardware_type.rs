//! The hardware type codes of the DHCP fixed header.

use vstd::prelude::*;

verus! {

#[derive(Debug, Clone, Copy, PartialEq, Eq, Structural)]
pub enum HardwareType {
    Ethernet,
    ExperimentalEthernet,
    AmateurRadioAX25,
    ProteonProNetTokenRing,
    Chaos,
    IEEE802Networks,
    ARCNET,
    Hyperchannel,
    Lanstar,
    AutonetShortAddress,
    LocalTalk,
    LocalNet,
    UltraLink,
    SMDS,
    FrameRelay,
    AsynchronousTransmissionMode,
    HDLC,
    FibreChannel,
    SerialLine,
    Other(u8),
}

/// The hardware type a wire code stands for.
pub open spec fn ht_of(value: u8) -> HardwareType {
    match value {
        1u8 => HardwareType::Ethernet,
        2u8 => HardwareType::ExperimentalEthernet,
        3u8 => HardwareType::AmateurRadioAX25,
        4u8 => HardwareType::ProteonProNetTokenRing,
        5u8 => HardwareType::Chaos,
        6u8 => HardwareType::IEEE802Networks,
        7u8 => HardwareType::ARCNET,
        8u8 => HardwareType::Hyperchannel,
        9u8 => HardwareType::Lanstar,
        10u8 => HardwareType::AutonetShortAddress,
        11u8 => HardwareType::LocalTalk,
        12u8 => HardwareType::LocalNet,
        13u8 => HardwareType::UltraLink,
        14u8 => HardwareType::SMDS,
        15u8 => HardwareType::FrameRelay,
        16u8 | 19u8 | 21u8 => HardwareType::AsynchronousTransmissionMode,
        17u8 => HardwareType::HDLC,
        18u8 => HardwareType::FibreChannel,
        20u8 => HardwareType::SerialLine,
        _ => HardwareType::Other(value),
    }
}

/// The wire code of a hardware type.
pub open spec fn ht_code(t: HardwareType) -> u8 {
    match t {
        HardwareType::Ethernet => 1u8,
        HardwareType::ExperimentalEthernet => 2u8,
        HardwareType::AmateurRadioAX25 => 3u8,
        HardwareType::ProteonProNetTokenRing => 4u8,
        HardwareType::Chaos => 5u8,
        HardwareType::IEEE802Networks => 6u8,
        HardwareType::ARCNET => 7u8,
        HardwareType::Hyperchannel => 8u8,
        HardwareType::Lanstar => 9u8,
        HardwareType::AutonetShortAddress => 10u8,
        HardwareType::LocalTalk => 11u8,
        HardwareType::LocalNet => 12u8,
        HardwareType::UltraLink => 13u8,
        HardwareType::SMDS => 14u8,
        HardwareType::FrameRelay => 15u8,
        HardwareType::AsynchronousTransmissionMode => 16u8,
        HardwareType::HDLC => 17u8,
        HardwareType::FibreChannel => 18u8,
        HardwareType::SerialLine => 20u8,
        HardwareType::Other(value) => value,
    }
}

/// A hardware type value survives a trip through its wire code. This rules
/// out only an `Other` payload that collides with a named code.
pub open spec fn ht_wf(t: HardwareType) -> bool {
    ht_of(ht_code(t)) == t
}

impl HardwareType {
    pub fn parse(value: u8) -> (r: Self)
        ensures
            r == ht_of(value),
            ht_wf(r),
    {
        match value {
            1 => HardwareType::Ethernet,
            2 => HardwareType::ExperimentalEthernet,
            3 => HardwareType::AmateurRadioAX25,
            4 => HardwareType::ProteonProNetTokenRing,
            5 => HardwareType::Chaos,
            6 => HardwareType::IEEE802Networks,
            7 => HardwareType::ARCNET,
            8 => HardwareType::Hyperchannel,
            9 => HardwareType::Lanstar,
            10 => HardwareType::AutonetShortAddress,
            11 => HardwareType::LocalTalk,
            12 => HardwareType::LocalNet,
            13 => HardwareType::UltraLink,
            14 => HardwareType::SMDS,
            15 => HardwareType::FrameRelay,
            16 | 19 | 21 => HardwareType::AsynchronousTransmissionMode,
            17 => HardwareType::HDLC,
            18 => HardwareType::FibreChannel,
            20 => HardwareType::SerialLine,
            _ => HardwareType::Other(value),
        }
    }

    pub fn generate(&self) -> (r: u8)
        ensures
            r == ht_code(*self),
    {
        match self {
            HardwareType::Ethernet => 1,
            HardwareType::ExperimentalEthernet => 2,
            HardwareType::AmateurRadioAX25 => 3,
            HardwareType::ProteonProNetTokenRing => 4,
            HardwareType::Chaos => 5,
            HardwareType::IEEE802Networks => 6,
            HardwareType::ARCNET => 7,
            HardwareType::Hyperchannel => 8,
            HardwareType::Lanstar => 9,
            HardwareType::AutonetShortAddress => 10,
            HardwareType::LocalTalk => 11,
            HardwareType::LocalNet => 12,
            HardwareType::UltraLink => 13,
            HardwareType::SMDS => 14,
            HardwareType::FrameRelay => 15,
            HardwareType::AsynchronousTransmissionMode => 16,
            HardwareType::HDLC => 17,
            HardwareType::FibreChannel => 18,
            HardwareType::SerialLine => 20,
            HardwareType::Other(value) => *value,
        }
    }
}

} // verus!
