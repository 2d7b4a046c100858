//! The cryptographic primitives the library signs and checks with, taken from
//! the `hmac`, `sha2` and `base64` crates.

use base64::Engine;
use hmac::Mac;
use vstd::prelude::*;

verus! {

/// HMAC-SHA256 of `message` under `key`, as the `hmac` and `sha2` crates compute it.
pub uninterp spec fn spec_hmac_sha256(key: Seq<u8>, message: Seq<u8>) -> Seq<u8>;

/// Standard base64 (RFC 4648 alphabet, with `=` padding), as the `base64` crate encodes it.
pub uninterp spec fn spec_base64_standard(bytes: Seq<u8>) -> Seq<char>;

/// `Hmac::<Sha256>::new_from_slice(key)`, `update(message)`, `finalize()`.
/// Claimed: the tag is the named HMAC-SHA256 value of the two byte strings, and it is
/// 32 bytes long (the SHA-256 output size). `new_from_slice` accepts a key of any
/// length, so the call does not fail.
#[verifier::external_body]
pub(crate) fn hmac_sha256(key: &[u8], message: &[u8]) -> (tag: Vec<u8>)
    ensures
        tag@ == spec_hmac_sha256(key@, message@),
        tag@.len() == 32,
{
    let mut mac = hmac::Hmac::<sha2::Sha256>::new_from_slice(key).expect("any key length");
    mac.update(message);
    mac.finalize().into_bytes().to_vec()
}

/// `base64::engine::general_purpose::STANDARD.encode(bytes)`.
/// Claimed: the text is the named standard encoding of the bytes, four characters for
/// each started group of three bytes (`encoded_len` with padding). The length bound
/// keeps `encoded_len` from overflowing, which would panic.
#[verifier::external_body]
pub(crate) fn base64_standard(bytes: &[u8]) -> (text: String)
    requires
        bytes@.len() <= 3 * (usize::MAX / 4) - 3,
    ensures
        text@ == spec_base64_standard(bytes@),
        text@.len() == 4 * ((bytes@.len() + 2) / 3),
{
    base64::engine::general_purpose::STANDARD.encode(bytes)
}

} // verus!
