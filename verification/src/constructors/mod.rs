//! The node of the datagram overlay and the traffic sniffer built on it.
pub mod node;
pub mod sniffer;
pub mod stun;
