//! The DHCP wire model: hardware and message type codes, TLV options, and
//! the packet codec.

pub mod hardware_type;
pub mod message_type;
pub mod option;
pub mod packet;

pub use hardware_type::HardwareType;
pub use message_type::MessageType;
pub use option::DHCPOption;
pub use option::DHCPOptionClass;
pub use option::ParseOptionError;
pub use packet::DHCPPacket;
pub use packet::PacketParseError;
