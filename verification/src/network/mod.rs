//! Peer discovery, route selection, the chat overlay and its messages.
pub mod broadcast;
pub mod discovery;
pub mod p2p;
pub mod select;
pub mod xml;
