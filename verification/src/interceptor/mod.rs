//! Inspection of captured packets.
pub mod parser;
pub mod sniffer;
