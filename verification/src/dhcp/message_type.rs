//! The op field of the DHCP fixed header: request or reply.

use vstd::prelude::*;

verus! {

#[derive(Debug, Clone, Copy, PartialEq, Eq, Structural)]
pub enum MessageType {
    Request,
    Reply,
}

/// The op a wire code stands for, if any.
pub open spec fn mt_of(value: u8) -> Option<MessageType> {
    match value {
        1u8 => Some(MessageType::Request),
        2u8 => Some(MessageType::Reply),
        _ => None,
    }
}

/// The wire code of an op.
pub open spec fn mt_code(t: MessageType) -> u8 {
    match t {
        MessageType::Request => 1u8,
        MessageType::Reply => 2u8,
    }
}

impl MessageType {
    pub fn parse(value: u8) -> (r: Option<Self>)
        ensures
            r == mt_of(value),
    {
        match value {
            1 => Some(MessageType::Request),
            2 => Some(MessageType::Reply),
            _ => None,
        }
    }

    pub fn generate(&self) -> (r: u8)
        ensures
            r == mt_code(*self),
    {
        match self {
            MessageType::Request => 1,
            MessageType::Reply => 2,
        }
    }
}

} // verus!
