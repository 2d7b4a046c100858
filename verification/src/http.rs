//! The pieces of an HTTP request that the clients decide: method, URL and headers; and
//! the `reqwest` client that sends them.

use vstd::prelude::*;
use vstd::arithmetic::power2::{lemma2_to64, lemma_pow2_unfold, pow2};

use crate::errors::MuxiError;
use crate::text::{join, str_eq};
use crate::VERSION;

verus! {

/// `reqwest::Client`, carried through the library unopened.
#[verifier::external_type_specification]
#[verifier::external_body]
pub struct ExReqwestClient(reqwest::Client);

/// `<reqwest::Client as Clone>::clone`: a handle on the same connection pool. Nothing is
/// claimed of it; cloning a client is what a derived `Clone` of the clients does.
pub assume_specification[ <reqwest::Client as Clone>::clone ](client: &reqwest::Client) -> reqwest::Client;

/// An HTTP client and the request timeout, in seconds, it was built with.
#[derive(Clone)]
pub struct HttpClient {
    client: reqwest::Client,
    timeout_secs: u64,
}

impl HttpClient {
    /// The `reqwest` client that sends the requests.
    pub closed spec fn spec_client(&self) -> reqwest::Client {
        self.client
    }

    /// The request timeout, in seconds, the client was built with.
    pub closed spec fn spec_timeout(&self) -> u64 {
        self.timeout_secs
    }

    /// The `reqwest` client that sends the requests.
    pub fn client(&self) -> (c: &reqwest::Client)
        ensures
            *c == self.spec_client(),
    {
        &self.client
    }

    /// The request timeout, in seconds, the client was built with.
    pub fn timeout_secs(&self) -> (t: u64)
        ensures
            t == self.spec_timeout(),
    {
        self.timeout_secs
    }
}

/// `reqwest::Client::builder().timeout(Duration::from_secs(timeout_secs)).build()`, kept
/// with the timeout it was given.
/// Claimed: a client that is built carries the timeout handed to the builder. Whether
/// building succeeds is not claimed: it fails when the HTTP backend cannot be set up on
/// the machine.
#[verifier::external_body]
pub(crate) fn build_http_client(timeout_secs: u64) -> (r: Result<HttpClient, reqwest::Error>)
    ensures
        r matches Ok(h) ==> h.spec_timeout() == timeout_secs,
{
    match reqwest::Client::builder().timeout(std::time::Duration::from_secs(timeout_secs)).build() {
        Ok(client) => Ok(HttpClient { client, timeout_secs }),
        Err(e) => Err(e),
    }
}

/// The HTTP methods the clients send.
#[derive(Debug, Clone, Copy, PartialEq, Eq)]
pub enum HttpMethod {
    Get,
    Post,
    Put,
    Delete,
}

/// The method a name stands for, if it is one of the four the clients send.
pub open spec fn spec_method(name: Seq<char>) -> Option<HttpMethod> {
    if name == "GET"@ {
        Some(HttpMethod::Get)
    } else if name == "POST"@ {
        Some(HttpMethod::Post)
    } else if name == "PUT"@ {
        Some(HttpMethod::Put)
    } else if name == "DELETE"@ {
        Some(HttpMethod::Delete)
    } else {
        None
    }
}

/// The method a name stands for; an error for any other name.
pub fn parse_method(name: &str) -> (r: Result<HttpMethod, MuxiError>)
    ensures
        match r {
            Ok(m) => spec_method(name@) == Some(m),
            Err(e) => spec_method(name@) is None && e@ == crate::errors::ErrorView::Connection(
                "Unknown method: "@ + name@,
            ),
        },
{
    if str_eq(name, "GET") {
        Ok(HttpMethod::Get)
    } else if str_eq(name, "POST") {
        Ok(HttpMethod::Post)
    } else if str_eq(name, "PUT") {
        Ok(HttpMethod::Put)
    } else if str_eq(name, "DELETE") {
        Ok(HttpMethod::Delete)
    } else {
        let mut m = String::from_str("Unknown method: ");
        m.append(name);
        Err(MuxiError::Connection(m))
    }
}

/// Whether a status is worth retrying: rate limited (429) or a server error (5xx).
pub open spec fn is_retryable_status(status: u16) -> bool {
    status == 429 || 500 <= status <= 599
}

/// `2^n`, the exponential backoff of the `n`-th retry in seconds.
pub open spec fn backoff_secs(n: nat) -> nat
    decreases n,
{
    if n == 0 {
        1
    } else {
        2 * backoff_secs((n - 1) as nat)
    }
}

/// The wait in seconds before retrying a request whose attempt number `attempt` (0 for the
/// first try) got `status`: none once `max_retries` retries were made or when the status
/// is not worth retrying; the `Retry-After` seconds of a rate-limited response that has
/// them; otherwise the exponential backoff `2^attempt`, held at `u64::MAX` when it does
/// not fit.
pub open spec fn spec_retry_delay(attempt: u32, max_retries: u32, status: u16, retry_after: Option<u32>) -> Option<u64> {
    if attempt < max_retries && is_retryable_status(status) {
        if status == 429 && retry_after is Some {
            Some(retry_after.unwrap() as u64)
        } else if backoff_secs(attempt as nat) <= u64::MAX {
            Some(backoff_secs(attempt as nat) as u64)
        } else {
            Some(u64::MAX)
        }
    } else {
        None
    }
}

/// The backoff of the `n`-th retry is `2^n` seconds.
pub proof fn lemma_backoff_is_pow2(n: nat)
    ensures
        backoff_secs(n) == pow2(n),
    decreases n,
{
    if n == 0 {
        lemma2_to64();
    } else {
        lemma_backoff_is_pow2((n - 1) as nat);
        lemma_pow2_unfold(n);
    }
}

/// The retry rules: once `max_retries` retries were made, or for a status other than
/// 429 and 5xx, there is no retry, whatever `Retry-After` says; a rate-limited response
/// with `Retry-After` waits exactly those seconds; any other retry waits `2^attempt`
/// seconds, or `u64::MAX` when that does not fit, so each retry waits twice as long as
/// the one before until the largest wait is reached.
pub proof fn lemma_retry_rules(attempt: u32, max_retries: u32, status: u16, retry_after: Option<u32>)
    ensures
        attempt >= max_retries ==> spec_retry_delay(attempt, max_retries, status, retry_after) is None,
        !(status == 429 || 500 <= status <= 599) ==> spec_retry_delay(
            attempt,
            max_retries,
            status,
            retry_after,
        ) is None,
        attempt < max_retries && status == 429 && retry_after is Some ==> spec_retry_delay(
            attempt,
            max_retries,
            status,
            retry_after,
        ) == Some(retry_after.unwrap() as u64),
        attempt < max_retries && (status == 429 || 500 <= status <= 599) && !(status == 429
            && retry_after is Some) ==> spec_retry_delay(attempt, max_retries, status, retry_after)
            == Some(
            if pow2(attempt as nat) <= u64::MAX {
                pow2(attempt as nat) as u64
            } else {
                u64::MAX
            },
        ),
        attempt + 1 < max_retries && 500 <= status <= 599 && pow2((attempt + 1) as nat) <= u64::MAX ==> {
            &&& spec_retry_delay(attempt, max_retries, status, retry_after) matches Some(d)
            &&& spec_retry_delay((attempt + 1) as u32, max_retries, status, retry_after)
                == Some((2 * d) as u64)
        },
{
    lemma_backoff_is_pow2(attempt as nat);
    lemma_backoff_is_pow2((attempt + 1) as nat);
    lemma_pow2_unfold((attempt + 1) as nat);
}

/// The wait before retrying, as `spec_retry_delay` says.
pub fn retry_delay(attempt: u32, max_retries: u32, status: u16, retry_after: Option<u32>) -> (r: Option<u64>)
    ensures
        r == spec_retry_delay(attempt, max_retries, status, retry_after),
        attempt >= max_retries ==> r is None,
        !(status == 429 || 500 <= status <= 599) ==> r is None,
        attempt < max_retries && status == 429 && retry_after is Some ==> r == Some(
            retry_after.unwrap() as u64,
        ),
        attempt < max_retries && (status == 429 || 500 <= status <= 599) && !(status == 429
            && retry_after is Some) ==> r == Some(
            if pow2(attempt as nat) <= u64::MAX {
                pow2(attempt as nat) as u64
            } else {
                u64::MAX
            },
        ),
{
    proof {
        lemma_retry_rules(attempt, max_retries, status, retry_after);
    }
    if !(attempt < max_retries && (status == 429 || (500 <= status && status <= 599))) {
        return None;
    }
    if status == 429 {
        if let Some(secs) = retry_after {
            return Some(secs as u64);
        }
    }
    let mut d: u64 = 1;
    let mut i: u32 = 0;
    while i < attempt
        invariant
            i <= attempt,
            d == (if backoff_secs(i as nat) <= u64::MAX {
                backoff_secs(i as nat)
            } else {
                u64::MAX as nat
            }),
        decreases attempt - i,
    {
        if d > u64::MAX / 2 {
            d = u64::MAX;
        } else {
            d = d * 2;
        }
        i = i + 1;
    }
    Some(d)
}

/// The views of a list of headers.
pub open spec fn headers_view(h: Seq<(String, String)>) -> Seq<(Seq<char>, Seq<char>)> {
    h.map_values(|p: (String, String)| (p.0@, p.1@))
}

/// The value of the SDK identification headers: `rust/` and the SDK version.
pub open spec fn sdk_value() -> Seq<char> {
    "rust/"@ + VERSION@
}

/// `rust/` and the SDK version.
pub fn sdk_header_value() -> (r: String)
    ensures
        r@ == sdk_value(),
{
    let mut r = String::from_str("rust/");
    r.append(VERSION);
    r
}

/// A header with a name and a value.
pub fn header(name: &str, value: &str) -> (r: (String, String))
    ensures
        r.0@ == name@,
        r.1@ == value@,
{
    (String::from_str(name), String::from_str(value))
}

/// Appends a header.
pub fn push_header(h: &mut Vec<(String, String)>, name: &str, value: &str)
    ensures
        headers_view(final(h)@) == headers_view(old(h)@).push((name@, value@)),
{
    let ghost before = h@;
    h.push(header(name, value));
    assert(headers_view(h@) =~= headers_view(before).push((name@, value@)));
}

/// The value of the client identification header: the operating system and the CPU
/// architecture the SDK runs on, as `{os}/{arch}`.
pub open spec fn platform_value(os: Seq<char>, arch: Seq<char>) -> Seq<char> {
    os + "/"@ + arch
}

/// `{os}/{arch}`.
pub fn platform_header_value(os: &str, arch: &str) -> (r: String)
    ensures
        r@ == platform_value(os@, arch@),
{
    let mut r = String::from_str(os);
    r.append("/");
    r.append(arch);
    r
}

/// The headers of every request: SDK identification, the platform the SDK runs on, a
/// fresh idempotency key, and JSON as the accepted type.
pub open spec fn base_headers(idempotency_key: Seq<char>, os: Seq<char>, arch: Seq<char>) -> Seq<
    (Seq<char>, Seq<char>),
> {
    seq![
        ("X-Muxi-SDK"@, sdk_value()),
        ("X-Muxi-Client"@, platform_value(os, arch)),
        ("X-Muxi-Idempotency-Key"@, idempotency_key),
        ("Accept"@, "application/json"@),
    ]
}

/// The headers of every request, for a platform named by its operating system and CPU
/// architecture.
pub fn base_request_headers(idempotency_key: &str, os: &str, arch: &str) -> (r: Vec<
    (String, String),
>)
    ensures
        headers_view(r@) == base_headers(idempotency_key@, os@, arch@),
{
    let mut r: Vec<(String, String)> = Vec::new();
    let sdk = sdk_header_value();
    let platform = platform_header_value(os, arch);
    assert(headers_view(r@) =~= Seq::<(Seq<char>, Seq<char>)>::empty());
    push_header(&mut r, "X-Muxi-SDK", sdk.as_str());
    push_header(&mut r, "X-Muxi-Client", platform.as_str());
    push_header(&mut r, "X-Muxi-Idempotency-Key", idempotency_key);
    push_header(&mut r, "Accept", "application/json");
    assert(headers_view(r@) =~= base_headers(idempotency_key@, os@, arch@));
    r
}

/// A header when the value is present, none otherwise.
pub open spec fn opt_header(name: Seq<char>, value: Option<Seq<char>>) -> Seq<(Seq<char>, Seq<char>)> {
    match value {
        Some(v) => seq![(name, v)],
        None => Seq::empty(),
    }
}

/// The query string of a list of parameters: `key=value` pairs joined by `&`, as given.
pub open spec fn spec_query(params: Seq<(Seq<char>, Seq<char>)>) -> Seq<char> {
    join(params.map_values(|p: (Seq<char>, Seq<char>)| p.0 + "="@ + p.1), "&"@)
}

/// The views of a list of parameters.
pub open spec fn params_view(p: Seq<(&str, String)>) -> Seq<(Seq<char>, Seq<char>)> {
    p.map_values(|x: (&str, String)| (x.0@, x.1@))
}

/// The query string of a list of parameters.
pub fn query_string(params: &Vec<(&str, String)>) -> (r: String)
    ensures
        r@ == spec_query(params_view(params@)),
{
    let ghost pv = params_view(params@);
    let ghost items = pv.map_values(|p: (Seq<char>, Seq<char>)| p.0 + "="@ + p.1);
    let mut r = String::new();
    for i in 0..params.len()
        invariant
            pv == params_view(params@),
            items == pv.map_values(|p: (Seq<char>, Seq<char>)| p.0 + "="@ + p.1),
            r@ == join(items.take(i as int), "&"@),
    {
        assert(items.take(i + 1).drop_last() == items.take(i as int));
        if i > 0 {
            r.append("&");
        }
        r.append(params[i].0);
        r.append("=");
        r.append(params[i].1.as_str());
        assert(items.take(i + 1).last() == params@[i as int].0@ + "="@ + params@[i as int].1@);
    }
    assert(items.take(items.len() as int) == items);
    r
}

} // verus!
