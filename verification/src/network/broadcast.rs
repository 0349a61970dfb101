//! Events that the network engine hands to its subscribers.
use vstd::prelude::*;
use crate::text::{decimal, push_decimal, push_str, string_of};

verus! {

/// A line of the engine's log.
#[derive(Clone, Debug)]
pub struct LogMessage {
    pub content: String,
}

/// A chat line typed by the local user, to be sent to the room.
#[derive(Clone, Debug)]
pub struct UserMessage {
    pub content: String,
}

/// A chat line of the room.
#[derive(Clone, Debug)]
pub struct ChatMessage {
    pub id: String,
    pub sender: String,
    pub content: String,
}

/// Counters of the overlay network, refreshed periodically.
#[derive(Clone, Copy, Debug, PartialEq, Eq)]
pub struct StatsMessage {
    pub room_count: u32,
    pub kademlia_count: u32,
    pub gosibsub_count: u32,
    pub active_ralays_count: u32,
}

/// Everything the engine publishes to its subscribers.
#[derive(Clone, Debug)]
pub enum EngineEvent {
    Log(LogMessage),
    User(UserMessage),
    Chat(ChatMessage),
    Stats(StatsMessage),
}

/// The one-line summary of the counters:
/// `Guardi VPN 📚:<dht> 🌐:<gossip> 📡:<relays> 💬:<room>`.
pub open spec fn status_text(s: StatsMessage) -> Seq<char> {
    "Guardi VPN 📚:"@ + decimal(s.kademlia_count as nat) + " 🌐:"@ + decimal(
        s.gosibsub_count as nat,
    ) + " 📡:"@ + decimal(s.active_ralays_count as nat) + " 💬:"@ + decimal(s.room_count as nat)
}

/// Renders the one-line summary of the counters.
pub fn status_line(s: &StatsMessage) -> (r: String)
    ensures
        r@ == status_text(*s),
{
    let mut v: Vec<char> = Vec::new();
    push_str(&mut v, "Guardi VPN 📚:");
    push_decimal(&mut v, s.kademlia_count);
    push_str(&mut v, " 🌐:");
    push_decimal(&mut v, s.gosibsub_count);
    push_str(&mut v, " 📡:");
    push_decimal(&mut v, s.active_ralays_count);
    push_str(&mut v, " 💬:");
    push_decimal(&mut v, s.room_count);
    string_of(v.as_slice())
}

} // verus!
