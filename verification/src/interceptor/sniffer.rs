//! Packet capture.
use vstd::prelude::*;
use crate::Packet;

verus! {

/// The packet that capture hands on: the start of an IPv4 header
/// (version 4, header length 5, total length 40, identification 1).
pub open spec fn sample_packet() -> Seq<u8> {
    seq![0x45u8, 0x00u8, 0x00u8, 0x28u8, 0x00u8, 0x01u8]
}

/// Captures an inbound packet for `port`. No capture driver is attached,
/// so every call yields the same fixed IPv4 header prefix.
pub fn capture_packet(port: u16) -> (r: Result<Packet, String>)
    ensures
        r matches Ok(p) && p@ == sample_packet(),
{
    let mock_packet: Packet = vec![0x45, 0x00, 0x00, 0x28, 0x00, 0x01];
    Ok(mock_packet)
}

} // verus!
