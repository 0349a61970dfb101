//! Verified core of a small peer-to-peer VPN node: packet inspection, the
//! datagram protocol spoken between nodes, route selection, and the state of
//! the terminal client.
use vstd::prelude::*;

pub mod assoc;
pub mod constructors;
pub mod ids;
pub mod interceptor;
pub mod network;
pub mod terminal;
pub mod text;

verus! {

/// Identifier of a peer in the overlay network.
pub type PeerId = String;

/// Round-trip time to a peer, in milliseconds.
pub type Latency = u32;

/// Human-readable name of a traffic destination.
pub type Hostname = String;

/// Weight of a candidate route; lower is better.
pub type RouteScore = u32;

/// Raw bytes of a captured network packet.
pub type Packet = Vec<u8>;

} // verus!
