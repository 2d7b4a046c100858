//! What the library reads from the machine: the clock and fresh random identifiers.

use vstd::prelude::*;

use crate::text::is_hex_char;

verus! {

/// `UNIX_EPOCH.elapsed()` (the time since the Unix epoch by the system clock), in whole
/// seconds.
/// Nothing is claimed of the value, which is the machine's clock; it is `None` when the
/// clock reads a time before the Unix epoch.
#[verifier::external_body]
pub(crate) fn unix_time_secs() -> (t: Option<u64>) {
    match std::time::UNIX_EPOCH.elapsed() {
        Ok(d) => Some(d.as_secs()),
        Err(_) => None,
    }
}

/// The text of a version-4 UUID in hyphenated form: 36 characters, hyphens at 8, 13, 18
/// and 23, lower-case hexadecimal digits elsewhere, the version digit `4` at 14 and one
/// of the variant digits `8`, `9`, `a`, `b` at 19.
pub open spec fn is_uuid_v4_text(s: Seq<char>) -> bool {
    &&& s.len() == 36
    &&& forall|i: int|
        0 <= i < 36 ==> if i == 8 || i == 13 || i == 18 || i == 23 {
            s[i] == '-'
        } else {
            is_hex_char(#[trigger] s[i])
        }
    &&& s[14] == '4'
    &&& (s[19] == '8' || s[19] == '9' || s[19] == 'a' || s[19] == 'b')
}

/// `uuid::Uuid::new_v4().to_string()`: a fresh random identifier.
/// Claimed: its text is the hyphenated lower-case form of a version-4 UUID (`new_v4`
/// masks in the version and the variant bits; `Display` writes the hyphenated lower-case
/// hexadecimal form). Which identifier comes out is random, and two calls are not claimed
/// to differ.
#[verifier::external_body]
pub(crate) fn new_uuid_v4() -> (id: String)
    ensures
        is_uuid_v4_text(id@),
{
    uuid::Uuid::new_v4().to_string()
}

/// `str::to_uppercase`: the Unicode upper-case mapping of each character.
pub uninterp spec fn spec_to_uppercase(s: Seq<char>) -> Seq<char>;

/// Whether every character of `s` is ASCII.
pub open spec fn is_ascii_text(s: Seq<char>) -> bool {
    forall|i: int| 0 <= i < s.len() ==> (#[trigger] s[i] as u32) < 128
}

/// The upper case of an ASCII character: `a` to `z` become `A` to `Z`, any other stays.
pub open spec fn ascii_upper_char(c: char) -> char {
    if 97 <= (c as u32) <= 122 {
        ((c as u32) - 32) as char
    } else {
        c
    }
}

/// The upper case of an ASCII text, character by character.
pub open spec fn ascii_upper(s: Seq<char>) -> Seq<char> {
    s.map_values(|c: char| ascii_upper_char(c))
}

/// `str::to_uppercase`. Claimed: the result is the named upper-case mapping of `s`; on
/// an ASCII text, where the Unicode mapping changes only the letters `a` to `z`, it is
/// the text with those letters made capitals.
#[verifier::external_body]
pub(crate) fn to_uppercase(s: &str) -> (r: String)
    ensures
        r@ == spec_to_uppercase(s@),
        is_ascii_text(s@) ==> r@ == ascii_upper(s@),
{
    s.to_uppercase()
}

} // verus!
