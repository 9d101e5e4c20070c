//! An ICMP echo ("ping") probe: the packet codec with its Internet checksum,
//! the round-trip tracker, and the decisions of the send/receive loop.

pub mod checksum;
pub mod packet;
pub mod probe;
pub mod tracker;

pub use checksum::calc_checksum;
pub use packet::EchoRequestPacket;
pub use tracker::ResponseHandler;
