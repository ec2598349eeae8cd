//! A DHCPv4 server library: the wire-format packet codec, the lease manager
//! with time-based expiry, and the protocol engine that answers DISCOVER,
//! REQUEST, DECLINE, RELEASE and INFORM messages.

pub mod address;
pub mod config;
pub mod dhcp;
pub mod server;
pub mod util;

pub use address::IPAddress;
pub use address::MACAddress;
pub use util::slice_to_u16;
pub use util::slice_to_u32;
pub use util::u16_to_slice;
pub use util::u32_to_slice;
