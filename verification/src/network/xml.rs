//! The chat message carried over the overlay, as it is written to XML.
use vstd::prelude::*;

verus! {

/// Kind of a chat message.
#[derive(Clone, Copy, Debug, PartialEq, Eq)]
pub enum MessageType {
    ChatPlain,
}

impl MessageType {
    /// The name under which the kind is written and displayed.
    pub fn name(&self) -> (s: &'static str)
        ensures
            s@ == "ChatPlain"@,
    {
        match self {
            MessageType::ChatPlain => "ChatPlain",
        }
    }
}

/// A chat message as published to the room: an identifier, the text and
/// its kind (written as the XML elements `id`, `m` and `t`).
pub struct UserMessage<'a> {
    pub id: &'a str,
    pub m: &'a str,
    pub t: MessageType,
}

/// Codec of room messages; the XML text itself is produced and read by the
/// serialisation layer around the library.
pub struct XML {}

} // verus!
