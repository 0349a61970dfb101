//! Local-network discovery: the beacon a node broadcasts and the test that
//! recognises another node's beacon.
use vstd::prelude::*;
use crate::text::{chars_of, decode_text, push_str, string_of, text_of};

verus! {

/// The prefix that marks a discovery beacon.
pub open spec fn beacon_prefix() -> Seq<char> {
    seq!['I', 'A', 'M', ':']
}

/// The beacon that announces `hostname`: `IAM:<hostname>`.
pub fn beacon_message(hostname: &str) -> (m: String)
    ensures
        m@ == beacon_prefix() + hostname@,
{
    let mut v: Vec<char> = Vec::new();
    v.push('I');
    v.push('A');
    v.push('M');
    v.push(':');
    push_str(&mut v, hostname);
    string_of(v.as_slice())
}

/// Whether `text` starts with the beacon prefix.
pub open spec fn starts_as_beacon(text: Seq<char>) -> bool {
    text.len() >= 4 && text.take(4) == beacon_prefix()
}

/// Whether a received message starts with the beacon prefix.
pub fn is_announcement_text(text: &str) -> (b: bool)
    ensures
        b == starts_as_beacon(text@),
{
    let v = chars_of(text);
    if v.len() < 4 {
        return false;
    }
    let r = v[0] == 'I' && v[1] == 'A' && v[2] == 'M' && v[3] == ':';
    assert(r == (v@.take(4) =~= beacon_prefix()));
    r
}

/// Whether a received datagram, read as text, starts with the beacon prefix.
pub fn is_announcement(datagram: &[u8]) -> (b: bool)
    ensures
        b == starts_as_beacon(text_of(datagram@)),
{
    let text = decode_text(datagram);
    is_announcement_text(text.as_str())
}

/// Every beacon is recognised as an announcement.
pub proof fn lemma_beacon_recognised(hostname: Seq<char>)
    ensures
        starts_as_beacon(text_of(vstd::utf8::encode_utf8(beacon_prefix() + hostname))),
{
    let m = beacon_prefix() + hostname;
    vstd::utf8::encode_utf8_valid_utf8(m);
    vstd::utf8::encode_utf8_decode_utf8(m);
    assert(m.take(4) =~= beacon_prefix());
}

} // verus!
