//! Extraction of a destination description from a raw IPv4 packet.
use vstd::prelude::*;
use vstd::utf8::*;
use vstd::string::*;
use crate::text::{
    chars_of, decode_text, dotted_quad, dotted_quad_chars, extend_chars, find_bytes, find_from,
    lemma_find_from, push_str, string_of, text_of, trim, trim_chars,
};
use crate::{Hostname, Packet};

verus! {

broadcast use vstd::utf8::encode_utf8_valid_utf8, vstd::utf8::encode_utf8_decode_utf8;

/// The bytes of the text `com`.
pub open spec fn com_bytes() -> Seq<u8> {
    seq![99u8, 111u8, 109u8]
}

/// Where the host window of a payload lies in its UTF-8 bytes: from ten
/// bytes before the first `com` (or the start) to just after that `com`.
pub open spec fn host_window(payload: Seq<char>) -> Option<(int, int)> {
    let bytes = encode_utf8(payload);
    match find_from(bytes, com_bytes(), 0) {
        Some(pos) => Some(
            (
                if pos >= 10 {
                    pos - 10
                } else {
                    0
                },
                if pos + 3 <= bytes.len() {
                    pos + 3
                } else {
                    bytes.len() as int
                },
            ),
        ),
        None => None,
    }
}

/// Both ends of the host window fall on character boundaries, so the text
/// can be cut there.
pub open spec fn host_window_on_boundaries(payload: Seq<char>) -> bool {
    match host_window(payload) {
        Some((start, end)) => is_char_boundary(encode_utf8(payload), start) && is_char_boundary(
            encode_utf8(payload),
            end,
        ),
        None => true,
    }
}

/// A destination followed, when the payload mentions `com`, by the trimmed
/// text around it: `"<dst> (Host: <text>...)"`.
pub open spec fn describe_payload(dst: Seq<char>, payload: Seq<char>) -> Seq<char> {
    match host_window(payload) {
        Some((start, end)) => dst + " (Host: "@ + trim(
            decode_utf8(encode_utf8(payload).subrange(start, end)),
        ) + "...)"@,
        None => dst,
    }
}

/// The destination address of an IPv4 packet (bytes 30 to 33), dotted.
pub open spec fn packet_destination(packet: Seq<u8>) -> Seq<char> {
    dotted_quad(packet[30], packet[31], packet[32], packet[33])
}

/// The payload of a packet: what follows its first 54 bytes.
pub open spec fn packet_payload(packet: Seq<u8>) -> Seq<u8> {
    packet.subrange(54, packet.len() as int)
}

/// The description that `extract_hostname` gives a packet.
pub open spec fn hostname_of(packet: Seq<u8>) -> Seq<char> {
    if packet.len() < 40 {
        "Control"@
    } else {
        describe_payload(packet_destination(packet), text_of(packet_payload(packet)))
    }
}

/// The packets on which the description cannot be made: long enough to
/// have a destination but too short for a payload, or whose host window
/// cuts a character in two.
pub open spec fn hostname_fails(packet: Seq<u8>) -> bool {
    packet.len() >= 40 && (packet.len() < 54 || !host_window_on_boundaries(
        text_of(packet_payload(packet)),
    ))
}

/// The start and end of the host window, computed.
fn window_of(payload: &str) -> (r: Option<(usize, usize)>)
    ensures
        r matches Some(w) ==> host_window(payload@) == Some((w.0 as int, w.1 as int)),
        r is None ==> host_window(payload@) is None,
{
    let bytes = payload.as_bytes();
    let com: [u8; 3] = [99u8, 111u8, 109u8];
    assert(com@ == com_bytes());
    match find_bytes(bytes, com.as_slice()) {
        Some(pos) => {
            proof {
                lemma_find_from(bytes@, com_bytes(), 0);
            }
            assert(pos + 3 <= bytes@.len());
            let blen = bytes.len();
            assert(blen == bytes@.len());
            let start = pos.saturating_sub(10);
            let end = if pos + 3 <= blen {
                pos + 3
            } else {
                bytes.len()
            };
            Some((start, end))
        },
        None => None,
    }
}

/// Whether the host window of `payload` can be cut out of it.
pub fn host_window_ok(payload: &str) -> (b: bool)
    ensures
        b == host_window_on_boundaries(payload@),
{
    match window_of(payload) {
        Some((start, end)) => payload.is_char_boundary(start) && payload.is_char_boundary(end),
        None => true,
    }
}

/// Describes a payload already decoded to text, behind the destination
/// `dst`.
pub fn describe_payload_text(dst: &[char], payload: &str) -> (h: String)
    requires
        host_window_on_boundaries(payload@),
    ensures
        h@ == describe_payload(dst@, payload@),
{
    match window_of(payload) {
        None => string_of(dst),
        Some((start, end)) => {
            let ghost bytes = encode_utf8(payload@);
            proof {
                lemma_find_from(bytes, com_bytes(), 0);
                let left = bytes.subrange(0, end as int);
                valid_utf8_split(bytes, end as int);
                if start < end {
                    is_char_boundary_iff_not_is_continuation_byte(bytes, start as int);
                    is_char_boundary_iff_not_is_continuation_byte(left, start as int);
                    assert(left[start as int] == bytes[start as int]);
                } else {
                    is_char_boundary_start_end_of_seq(left);
                }
            }
            let (left, _) = payload.split_at(end);
            let (_, mid) = left.split_at(start);
            assert(mid.spec_bytes() =~= bytes.subrange(start as int, end as int));
            assert(decode_utf8(encode_utf8(mid@)) == mid@);
            let text = chars_of(mid);
            let trimmed = trim_chars(text.as_slice());
            let mut out: Vec<char> = Vec::new();
            extend_chars(&mut out, dst);
            push_str(&mut out, " (Host: ");
            extend_chars(&mut out, trimmed.as_slice());
            push_str(&mut out, "...)");
            string_of(out.as_slice())
        },
    }
}

/// Describes the destination of a captured packet: `"Control"` for short
/// packets, otherwise the dotted destination address, followed by the text
/// around the first `com` in the payload when there is one.
pub fn extract_hostname(packet: Packet) -> (h: Hostname)
    requires
        !hostname_fails(packet@),
    ensures
        h@ == hostname_of(packet@),
{
    if packet.len() < 40 {
        return String::from_str("Control");
    }
    let dst = dotted_quad_chars(packet[30], packet[31], packet[32], packet[33]);
    let tail = &packet.as_slice()[54..packet.len()];
    let payload = decode_text(tail);
    describe_payload_text(dst.as_slice(), payload.as_str())
}

/// `extract_hostname` where it succeeds; `None` on exactly the packets on
/// which the description cannot be made.
pub fn try_extract_hostname(packet: Packet) -> (r: Option<Hostname>)
    ensures
        r is None <==> hostname_fails(packet@),
        r matches Some(h) ==> h@ == hostname_of(packet@),
{
    if packet.len() < 40 {
        return Some(extract_hostname(packet));
    }
    if packet.len() < 54 {
        return None;
    }
    let tail = &packet.as_slice()[54..packet.len()];
    let payload = decode_text(tail);
    if host_window_ok(payload.as_str()) {
        Some(extract_hostname(packet))
    } else {
        None
    }
}

} // verus!
