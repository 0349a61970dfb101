//! Fresh random identifiers.
use vstd::prelude::*;

verus! {

/// A lowercase hexadecimal digit.
pub open spec fn is_lower_hex(c: char) -> bool {
    ('0' <= c && c <= '9') || ('a' <= c && c <= 'f')
}

/// The hyphenated lowercase text of a random (version 4, RFC 4122 variant)
/// UUID: 36 characters, hyphens at positions 8, 13, 18 and 23, lowercase
/// hex digits elsewhere, `4` at position 14 and one of `8`, `9`, `a`, `b`
/// at position 19.
pub open spec fn is_uuid_v4_text(s: Seq<char>) -> bool {
    &&& s.len() == 36
    &&& forall|i: int|
        0 <= i < 36 ==> if i == 8 || i == 13 || i == 18 || i == 23 {
            #[trigger] s[i] == '-'
        } else {
            is_lower_hex(s[i])
        }
    &&& s[14] == '4'
    &&& (s[19] == '8' || s[19] == '9' || s[19] == 'a' || s[19] == 'b')
}

/// `uuid::Uuid::new_v4`, rendered with `to_string`: a fresh random
/// identifier. Which one comes out is chance; every outcome has the shape
/// of `is_uuid_v4_text` (the crate masks in the version and variant bits
/// and prints the hyphenated lowercase form). The call panics only when the
/// operating system cannot supply random bytes, which is not stated here.
#[verifier::external_body]
pub(crate) fn fresh_id() -> (id: String)
    ensures
        is_uuid_v4_text(id@),
{
    uuid::Uuid::new_v4().to_string()
}

} // verus!
