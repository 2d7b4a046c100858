use vstd::prelude::*;

use crate::crypto::{base64_standard, hmac_sha256, spec_base64_standard, spec_hmac_sha256};
use crate::sys::{ascii_upper, is_ascii_text, spec_to_uppercase, to_uppercase, unix_time_secs};
use crate::text::{chars_of, decimal, lemma_decimal_digits, find_char, first_index, lemma_first_index, lemma_first_index_props, string_from_chars, u64_to_string};
use vstd::utf8::encode_utf8;

verus! {

/// Signing of requests to the server's RPC endpoints (HMAC-SHA256 over method, path
/// and time).
pub struct Auth;

/// The value of the `Authorization` header for a key, a signature and a timestamp.
pub open spec fn spec_auth_header(key_id: Seq<char>, signature: Seq<char>, timestamp: Seq<char>) -> Seq<
    char,
> {
    "MUXI-HMAC-SHA256 Credential="@ + key_id + ",Timestamp="@ + timestamp + ",Signature="@
        + signature
}

/// The part of a request path that is signed: everything before the first `?`.
pub open spec fn clean_path(path: Seq<char>) -> Seq<char> {
    match first_index(path, '?') {
        Some(i) => path.take(i),
        None => path,
    }
}

/// The upper case of a method name: letter by letter for an ASCII name, the Unicode
/// mapping for any other.
pub open spec fn upper_method(method: Seq<char>) -> Seq<char> {
    if is_ascii_text(method) {
        ascii_upper(method)
    } else {
        spec_to_uppercase(method)
    }
}

/// The signed message: upper-cased method, path without query, timestamp, one per line.
pub open spec fn signing_message(method: Seq<char>, path: Seq<char>, timestamp: Seq<char>) -> Seq<
    char,
> {
    upper_method(method) + "\n"@ + clean_path(path) + "\n"@ + timestamp
}

/// The base64 HMAC-SHA256 signature, under the UTF-8 bytes of `secret_key`, of the
/// message for `method` and `path` at second `timestamp` of the Unix epoch.
pub open spec fn spec_signature(method: Seq<char>, path: Seq<char>, secret_key: Seq<char>, timestamp: nat) -> Seq<char> {
    spec_base64_standard(
        spec_hmac_sha256(
            encode_utf8(secret_key),
            encode_utf8(signing_message(method, path, decimal(timestamp))),
        ),
    )
}

/// The path without its query string.
fn strip_query(path: &str) -> (r: String)
    ensures
        r@ == clean_path(path@),
{
    let v = chars_of(path);
    match find_char(v.as_slice(), '?') {
        Some(i) => string_from_chars(v.as_slice().split_at(i).0),
        None => string_from_chars(v.as_slice()),
    }
}

impl Auth {
    /// The signature and the decimal timestamp for a request at second `timestamp`. The
    /// signature is the 44-character base64 text of a 32-byte tag.
    pub fn hmac_signature_at(method: &str, path: &str, secret_key: &str, timestamp: u64) -> (r: (
        String,
        String,
    ))
        ensures
            r.0@ == spec_signature(method@, path@, secret_key@, timestamp as nat),
            r.0@.len() == 44,
            r.1@ == decimal(timestamp as nat),
            r.1@.len() > 0,
    {
        proof {
            lemma_decimal_digits(timestamp as nat);
        }
        let ts = u64_to_string(timestamp);
        let mut message = to_uppercase(method);
        message.append("\n");
        let clean = strip_query(path);
        message.append(clean.as_str());
        message.append("\n");
        message.append(ts.as_str());
        let tag = hmac_sha256(secret_key.as_bytes(), message.as_str().as_bytes());
        let signature = base64_standard(tag.as_slice());
        (signature, ts)
    }

    /// Signs a request now: the signature and the timestamp it was made at. A clock
    /// that reads before the Unix epoch counts as second 0.
    pub fn generate_hmac_signature(method: &str, path: &str, key_id: &str, secret_key: &str) -> (r: (
        String,
        String,
    ))
        ensures
            exists|t: u64|
                r.0@ == spec_signature(method@, path@, secret_key@, t as nat) && r.1@ == decimal(
                    t as nat,
                ),
            r.0@.len() == 44,
            r.1@.len() > 0,
    {
        let now = match unix_time_secs() {
            Some(t) => t,
            None => 0,
        };
        Self::hmac_signature_at(method, path, secret_key, now)
    }

    pub fn build_auth_header(key_id: &str, signature: &str, timestamp: &str) -> (header: String)
        ensures
            header@ == spec_auth_header(key_id@, signature@, timestamp@),
    {
        let mut header = String::from_str("MUXI-HMAC-SHA256 Credential=");
        header.append(key_id);
        header.append(",Timestamp=");
        header.append(timestamp);
        header.append(",Signature=");
        header.append(signature);
        header
    }

    /// The `Authorization` header for a request signed now.
    pub fn signed_auth_header(method: &str, path: &str, key_id: &str, secret_key: &str) -> (header:
        String)
        ensures
            exists|t: u64|
                header@ == spec_auth_header(
                    key_id@,
                    spec_signature(method@, path@, secret_key@, t as nat),
                    decimal(t as nat),
                ),
    {
        let (signature, timestamp) = Self::generate_hmac_signature(method, path, key_id, secret_key);
        Self::build_auth_header(key_id, signature.as_str(), timestamp.as_str())
    }
}

/// The letter case of an ASCII method name does not enter its signature: two names
/// that differ only in the case of their letters sign alike.
pub proof fn lemma_signature_ignores_method_case(
    m1: Seq<char>,
    m2: Seq<char>,
    path: Seq<char>,
    secret_key: Seq<char>,
    timestamp: nat,
)
    requires
        is_ascii_text(m1),
        is_ascii_text(m2),
        ascii_upper(m1) == ascii_upper(m2),
    ensures
        spec_signature(m1, path, secret_key, timestamp) == spec_signature(
            m2,
            path,
            secret_key,
            timestamp,
        ),
{
}

/// Two signings of one request (`generate_hmac_signature` with any key ids) that carry
/// the same timestamp give the same signature: the key id takes no part in signing.
pub proof fn lemma_signature_ignores_key_id(
    method: Seq<char>,
    path: Seq<char>,
    secret_key: Seq<char>,
    sig1: Seq<char>,
    ts1: Seq<char>,
    sig2: Seq<char>,
    ts2: Seq<char>,
)
    requires
        exists|t: u64|
            sig1 == spec_signature(method, path, secret_key, t as nat) && ts1 == decimal(t as nat),
        exists|t: u64|
            sig2 == spec_signature(method, path, secret_key, t as nat) && ts2 == decimal(t as nat),
        ts1 == ts2,
    ensures
        sig1 == sig2,
{
    let t1 = choose|t: u64|
        sig1 == spec_signature(method, path, secret_key, t as nat) && ts1 == decimal(t as nat);
    let t2 = choose|t: u64|
        sig2 == spec_signature(method, path, secret_key, t as nat) && ts2 == decimal(t as nat);
    lemma_decimal_digits(t1 as nat);
    lemma_decimal_digits(t2 as nat);
}

/// The query string of a path does not enter its signature: a path signs like the same
/// path followed by `?` and any query.
pub proof fn lemma_signature_ignores_query(
    method: Seq<char>,
    path: Seq<char>,
    query: Seq<char>,
    secret_key: Seq<char>,
    timestamp: nat,
)
    requires
        first_index(path, '?') is None,
    ensures
        spec_signature(method, path + seq!['?'] + query, secret_key, timestamp) == spec_signature(
            method,
            path,
            secret_key,
            timestamp,
        ),
{
    let full = path + seq!['?'] + query;
    lemma_first_index_props(path, '?');
    assert forall|j: int| 0 <= j < path.len() implies full[j] != '?' by {
        assert(full[j] == path[j]);
    }
    lemma_first_index(full, '?', path.len() as int);
    assert(full.take(path.len() as int) == path);
}

} // verus!
