use vstd::prelude::*;

use crate::crypto::{hmac_sha256, spec_hmac_sha256};
use crate::sys::unix_time_secs;
use crate::text::{
    all_ws, first_index, is_ws, join, lemma_split_join, lemma_trim_padding, is_digit, is_hex_char, lacks, lemma_decimal_digits, lemma_first_index, lemma_hex_lower_chars,
    lemma_parse_decimal, lemma_split_char_two, lemma_trim_unchanged,
    chars_eq, chars_of, decimal, find_char, hex_lower, parse_u64, parse_unsigned,
    split_char, split_on, split_once, string_from_chars, sub_chars, to_hex_lower, trim,
    trim_chars,
};
use vstd::utf8::encode_utf8;

verus! {

/// A webhook delivery: the outcome of an asynchronous request.
#[derive(Debug, Clone)]
pub struct WebhookEvent {
    pub request_id: Option<String>,
    pub session_id: Option<String>,
    pub user_id: Option<String>,
    pub status: Option<String>,
    pub content: Option<Vec<ContentItem>>,
    pub error: Option<ErrorInfo>,
    pub clarification: Option<ClarificationInfo>,
    pub timestamp: Option<String>,
}

/// One item of a delivery's content (its `type` field is `content_type`).
#[derive(Debug, Clone)]
pub struct ContentItem {
    pub content_type: Option<String>,
    pub text: Option<String>,
    pub url: Option<String>,
}

/// The error a failed request reports.
#[derive(Debug, Clone)]
pub struct ErrorInfo {
    pub code: Option<String>,
    pub message: Option<String>,
}

/// The question a request awaiting clarification asks.
#[derive(Debug, Clone)]
pub struct ClarificationInfo {
    pub question: Option<String>,
    pub options: Option<Vec<String>>,
}

/// Verification of the signatures that come with webhook deliveries.
pub struct Webhook;

/// The time window, in seconds, within which a delivery's timestamp is accepted.
pub const DEFAULT_TOLERANCE_SECS: u64 = 300;

/// The timestamp (`t`) and signature (`v1`) fields that one comma-separated part of a
/// signature header sets: `key=value` with the key trimmed to `t` or `v1`, the value
/// trimmed; a later part overrides an earlier one.
pub open spec fn apply_part(
    acc: (Option<Seq<char>>, Option<Seq<char>>),
    part: Seq<char>,
) -> (Option<Seq<char>>, Option<Seq<char>>) {
    match split_once(part, '=') {
        Some((k, v)) => if trim(k) == "t"@ {
            (Some(trim(v)), acc.1)
        } else if trim(k) == "v1"@ {
            (acc.0, Some(trim(v)))
        } else {
            acc
        },
        None => acc,
    }
}

/// The fields that a sequence of header parts sets, read left to right.
pub open spec fn fold_parts(parts: Seq<Seq<char>>) -> (Option<Seq<char>>, Option<Seq<char>>)
    decreases parts.len(),
{
    if parts.len() == 0 {
        (None, None)
    } else {
        apply_part(fold_parts(parts.drop_last()), parts.last())
    }
}

/// The timestamp and signature fields of a signature header.
pub open spec fn header_fields(header: Seq<char>) -> (Option<Seq<char>>, Option<Seq<char>>) {
    fold_parts(split_char(header, ','))
}

/// The expected `v1` signature: lower-case hex of the HMAC-SHA256, under the secret, of
/// the timestamp text, a dot and the payload.
pub open spec fn expected_signature(secret: Seq<char>, timestamp: Seq<char>, payload: Seq<char>) -> Seq<char> {
    hex_lower(spec_hmac_sha256(encode_utf8(secret), encode_utf8(timestamp + "."@ + payload)))
}

/// The distance between two instants.
pub open spec fn abs_diff(a: int, b: int) -> int {
    if a >= b {
        a - b
    } else {
        b - a
    }
}

/// The verdict on a delivery at second `now`: an error without a secret or with a
/// timestamp that is not a `u64`; `false` without a header, without both fields, or with
/// a timestamp farther than `tolerance` from `now`; otherwise whether the signature is
/// the expected one.
pub open spec fn spec_verify(
    payload: Seq<char>,
    header: Option<Seq<char>>,
    secret: Seq<char>,
    tolerance: int,
    now: int,
) -> Result<bool, Seq<char>> {
    if secret.len() == 0 {
        Err("Webhook secret is required"@)
    } else {
        match header {
            None => Ok(false),
            Some(h) => if h.len() == 0 {
                Ok(false)
            } else {
                match header_fields(h) {
                    (Some(ts), Some(sig)) => match parse_unsigned(ts, u64::MAX as int) {
                        None => Err("Invalid timestamp"@),
                        Some(t) => if abs_diff(now, t) > tolerance {
                            Ok(false)
                        } else {
                            Ok(expected_signature(secret, ts, payload) == sig)
                        },
                    },
                    _ => Ok(false),
                }
            },
        }
    }
}

/// The spec form of an optional string slice.
pub open spec fn opt_str(s: Option<&str>) -> Option<Seq<char>> {
    match s {
        Some(x) => Some(x@),
        None => None,
    }
}

/// The verdict as `spec_verify` gives it, with the error text as a view.
pub open spec fn verdict_is(r: Result<bool, &'static str>, v: Result<bool, Seq<char>>) -> bool {
    match r {
        Ok(b) => v == Ok::<bool, Seq<char>>(b),
        Err(e) => v == Err::<bool, Seq<char>>(e@),
    }
}

/// The timestamp and signature fields of a signature header.
fn parse_header_fields(h: &[char]) -> (r: (Option<Vec<char>>, Option<Vec<char>>))
    ensures
        (match r.0 {
            Some(v) => Some(v@),
            None => None,
        }, match r.1 {
            Some(v) => Some(v@),
            None => None,
        }) == header_fields(h@),
{
    let parts = split_on(h, ',');
    let ghost sp = split_char(h@, ',');
    let mut timestamp: Option<Vec<char>> = None;
    let mut signature: Option<Vec<char>> = None;
    for i in 0..parts.len()
        invariant
            parts@.len() == sp.len(),
            forall|j: int| 0 <= j < parts@.len() ==> #[trigger] parts@[j]@ == sp[j],
            (match timestamp {
                Some(v) => Some(v@),
                None => None,
            }, match signature {
                Some(v) => Some(v@),
                None => None,
            }) == fold_parts(sp.take(i as int)),
    {
        let part = parts[i].as_slice();
        assert(sp.take(i + 1).drop_last() == sp.take(i as int));
        assert(sp.take(i + 1).last() == part@);
        match find_char(part, '=') {
            Some(k) => {
                let n = part.len();
                assert(k < n);
                let key = trim_chars(sub_chars(part, 0, k).as_slice());
                let value = trim_chars(sub_chars(part, k + 1, n).as_slice());
                assert(part@.subrange(0, k as int) == part@.take(k as int));
                assert(part@.subrange(k + 1, part@.len() as int) == part@.skip(k + 1));
                let t = chars_of("t");
                let v1 = chars_of("v1");
                if chars_eq(key.as_slice(), t.as_slice()) {
                    timestamp = Some(value);
                } else if chars_eq(key.as_slice(), v1.as_slice()) {
                    signature = Some(value);
                }
            },
            None => {},
        }
    }
    assert(sp.take(sp.len() as int) == sp);
    (timestamp, signature)
}

/// The signature header that carries a timestamp and a signature.
pub open spec fn signature_header(timestamp: nat, signature: Seq<char>) -> Seq<char> {
    "t="@ + decimal(timestamp) + ",v1="@ + signature
}

/// A delivery signed with the secret is accepted: the header that carries its timestamp
/// and the signature expected for it verifies at any time within the tolerance.
pub proof fn lemma_signed_delivery_verifies(
    payload: Seq<char>,
    secret: Seq<char>,
    timestamp: nat,
    tolerance: int,
    now: int,
)
    requires
        secret.len() > 0,
        timestamp <= u64::MAX,
        abs_diff(now, timestamp as int) <= tolerance,
    ensures
        spec_verify(
            payload,
            Some(signature_header(timestamp, expected_signature(secret, decimal(timestamp), payload))),
            secret,
            tolerance,
            now,
        ) == Ok::<bool, Seq<char>>(true),
{
    reveal_strlit("t=");
    reveal_strlit(",v1=");
    reveal_strlit("t");
    reveal_strlit("v1");
    let d = decimal(timestamp);
    let h = expected_signature(secret, d, payload);
    let p1 = "t="@ + d;
    let p2 = "v1="@ + h;
    reveal_strlit("v1=");
    let header = signature_header(timestamp, h);
    assert(header =~= p1 + seq![','] + p2);
    lemma_decimal_digits(timestamp);
    lemma_hex_lower_chars(spec_hmac_sha256(encode_utf8(secret), encode_utf8(d + "."@ + payload)));
    assert(lacks(p1, ',')) by {
        assert forall|i: int| 0 <= i < p1.len() implies p1[i] != ',' by {
            if i >= 2 {
                assert(p1[i] == d[i - 2]);
                assert(is_digit(d[i - 2]));
            }
        }
    }
    assert(lacks(p2, ',')) by {
        assert forall|i: int| 0 <= i < p2.len() implies p2[i] != ',' by {
            if i >= 3 {
                assert(p2[i] == h[i - 3]);
                assert(is_hex_char(h[i - 3]));
            }
        }
    }
    lemma_split_char_two(p1, p2, ',');
    assert(header_fields(header) == fold_parts(seq![p1, p2]));
    assert(seq![p1, p2].drop_last() == seq![p1]);
    assert(seq![p1].drop_last() == Seq::<Seq<char>>::empty());
    lemma_first_index(p1, '=', 1);
    lemma_first_index(p2, '=', 2);
    assert(p1.take(1) == "t"@);
    assert(p1.skip(2) == d);
    assert(p2.take(2) == "v1"@);
    assert(p2.skip(3) == h);
    lemma_trim_unchanged("t"@);
    lemma_trim_unchanged("v1"@);
    assert(is_digit(d[0]));
    assert(is_digit(d.last()));
    lemma_trim_unchanged(d);
    if h.len() > 0 {
        assert(is_hex_char(h[0]));
        assert(is_hex_char(h.last()));
    }
    lemma_trim_unchanged(h);
    assert("v1"@ != "t"@);
    assert(apply_part((None, None), p1) == (Some(d), None::<Seq<char>>));
    assert(apply_part((Some(d), None), p2) == (Some(d), Some(h)));
    lemma_parse_decimal(timestamp, u64::MAX as int);
    assert(header.len() > 0);
    assert(fold_parts(Seq::<Seq<char>>::empty()) == (None::<Seq<char>>, None::<Seq<char>>));
    assert(fold_parts(seq![p1]) == apply_part(fold_parts(seq![p1].drop_last()), seq![p1].last()));
    assert(fold_parts(seq![p1]) == (Some(d), None::<Seq<char>>));
    assert(fold_parts(seq![p1, p2]) == apply_part(fold_parts(seq![p1, p2].drop_last()), seq![p1, p2].last()));
    assert(header_fields(header) == (Some(d), Some(h)));
    assert(parse_unsigned(d, u64::MAX as int) == Some(timestamp as int));
}

/// The field that one part of a signature header sets: the trimmed key (`t` or `v1`)
/// and the trimmed value; `None` for a part that sets neither.
pub open spec fn part_field(part: Seq<char>) -> Option<(Seq<char>, Seq<char>)> {
    match split_once(part, '=') {
        Some((k, v)) => if trim(k) == "t"@ || trim(k) == "v1"@ {
            Some((trim(k), trim(v)))
        } else {
            None
        },
        None => None,
    }
}

/// The fields that the parts of a header set, in order.
pub open spec fn part_fields(parts: Seq<Seq<char>>) -> Seq<(Seq<char>, Seq<char>)>
    decreases parts.len(),
{
    if parts.len() == 0 {
        Seq::empty()
    } else {
        match part_field(parts.last()) {
            Some(f) => part_fields(parts.drop_last()).push(f),
            None => part_fields(parts.drop_last()),
        }
    }
}

/// The timestamp and signature that a sequence of fields sets, a later field overriding
/// an earlier one.
pub open spec fn fold_fields(fields: Seq<(Seq<char>, Seq<char>)>) -> (Option<Seq<char>>, Option<Seq<char>>)
    decreases fields.len(),
{
    if fields.len() == 0 {
        (None, None)
    } else {
        let acc = fold_fields(fields.drop_last());
        if fields.last().0 == "t"@ {
            (Some(fields.last().1), acc.1)
        } else {
            (acc.0, Some(fields.last().1))
        }
    }
}

proof fn lemma_fold_parts_fields(parts: Seq<Seq<char>>)
    ensures
        fold_parts(parts) == fold_fields(part_fields(parts)),
    decreases parts.len(),
{
    reveal_strlit("t");
    reveal_strlit("v1");
    if parts.len() > 0 {
        lemma_fold_parts_fields(parts.drop_last());
        let fs = part_fields(parts.drop_last());
        match part_field(parts.last()) {
            Some(f) => {
                assert(fs.push(f).drop_last() == fs);
            },
            None => {},
        }
    }
}

proof fn lemma_part_fields_append(a: Seq<Seq<char>>, b: Seq<Seq<char>>)
    ensures
        part_fields(a + b) == part_fields(a) + part_fields(b),
    decreases b.len(),
{
    if b.len() == 0 {
        assert(a + b == a);
        assert(part_fields(a) + Seq::<(Seq<char>, Seq<char>)>::empty() == part_fields(a));
    } else {
        lemma_part_fields_append(a, b.drop_last());
        assert((a + b).drop_last() == a + b.drop_last());
        assert((a + b).last() == b.last());
        match part_field(b.last()) {
            Some(f) => {
                assert(part_fields(a) + part_fields(b.drop_last()).push(f) == (part_fields(a)
                    + part_fields(b.drop_last())).push(f));
            },
            None => {},
        }
    }
}

/// A header's verdict depends only on the fields its parts set: two headers whose parts
/// set the same fields in the same order get the same verdict, whatever else they hold.
pub proof fn lemma_verdict_depends_on_fields(
    payload: Seq<char>,
    h1: Seq<char>,
    h2: Seq<char>,
    secret: Seq<char>,
    tolerance: int,
    now: int,
)
    requires
        part_fields(split_char(h1, ',')) == part_fields(split_char(h2, ',')),
    ensures
        spec_verify(payload, Some(h1), secret, tolerance, now) == spec_verify(
            payload,
            Some(h2),
            secret,
            tolerance,
            now,
        ),
{
    lemma_fold_parts_fields(split_char(h1, ','));
    lemma_fold_parts_fields(split_char(h2, ','));
    assert(header_fields(h1) == header_fields(h2));
    let e = Seq::<char>::empty();
    let one = seq![e];
    assert(split_char(e, ',') == one);
    assert(first_index(e, '=') is None);
    assert(part_field(e) is None);
    assert(one.last() == e);
    assert(one.drop_last() =~= Seq::<Seq<char>>::empty());
    assert(part_fields(one) == part_fields(one.drop_last()));
    assert(part_fields(one) == Seq::<(Seq<char>, Seq<char>)>::empty());
    if h1.len() == 0 {
        assert(h1 == Seq::<char>::empty());
        assert(header_fields(h2) == (None::<Seq<char>>, None::<Seq<char>>));
    }
    if h2.len() == 0 {
        assert(h2 == Seq::<char>::empty());
        assert(header_fields(h1) == (None::<Seq<char>>, None::<Seq<char>>));
    }
}

/// Whitespace around the key and the value of a part does not change what it sets.
pub proof fn lemma_padded_part_field(
    key: Seq<char>,
    value: Seq<char>,
    w1: Seq<char>,
    w2: Seq<char>,
    w3: Seq<char>,
    w4: Seq<char>,
)
    requires
        lacks(key, '='),
        all_ws(w1),
        all_ws(w2),
        all_ws(w3),
        all_ws(w4),
    ensures
        part_field(w1 + key + w2 + seq!['='] + w3 + value + w4) == part_field(
            key + seq!['='] + value,
        ),
{
    let k2 = w1 + key + w2;
    let v2 = w3 + value + w4;
    let p2 = w1 + key + w2 + seq!['='] + w3 + value + w4;
    let p1 = key + seq!['='] + value;
    assert(p2 == k2 + seq!['='] + v2);
    assert forall|j: int| 0 <= j < k2.len() implies k2[j] != '=' by {
        if j < w1.len() {
            assert(is_ws(w1[j]));
        } else if j < w1.len() + key.len() {
            assert(k2[j] == key[j - w1.len()]);
        } else {
            assert(is_ws(w2[j - w1.len() - key.len()]));
        }
    }
    lemma_first_index(p2, '=', k2.len() as int);
    assert(p2.take(k2.len() as int) == k2);
    assert(p2.skip(k2.len() as int + 1) == v2);
    lemma_first_index(p1, '=', key.len() as int);
    assert(p1.take(key.len() as int) == key);
    assert(p1.skip(key.len() as int + 1) == value);
    lemma_trim_padding(w1, key, w2);
    lemma_trim_padding(w3, value, w4);
}

/// A part that sets neither field changes nothing where it is inserted.
pub proof fn lemma_other_part_ignored(a: Seq<Seq<char>>, part: Seq<char>, b: Seq<Seq<char>>)
    requires
        part_field(part) is None,
    ensures
        part_fields(a + seq![part] + b) == part_fields(a + b),
{
    lemma_part_fields_append(a + seq![part], b);
    lemma_part_fields_append(a, b);
    assert((a + seq![part]).drop_last() == a);
}

/// Headers written as comma-joined parts get the same verdict when their parts set the
/// same fields in the same order: padding the keys and values of a header's parts with
/// whitespace (`lemma_padded_part_field`) or inserting parts that set neither field
/// (`lemma_other_part_ignored`) leaves the verdict unchanged.
pub proof fn lemma_verdict_of_joined_parts(
    payload: Seq<char>,
    parts1: Seq<Seq<char>>,
    parts2: Seq<Seq<char>>,
    secret: Seq<char>,
    tolerance: int,
    now: int,
)
    requires
        parts1.len() > 0,
        parts2.len() > 0,
        forall|i: int| 0 <= i < parts1.len() ==> lacks(#[trigger] parts1[i], ','),
        forall|i: int| 0 <= i < parts2.len() ==> lacks(#[trigger] parts2[i], ','),
        part_fields(parts1) == part_fields(parts2),
    ensures
        spec_verify(payload, Some(join(parts1, seq![','])), secret, tolerance, now) == spec_verify(
            payload,
            Some(join(parts2, seq![','])),
            secret,
            tolerance,
            now,
        ),
{
    lemma_split_join(parts1, ',');
    lemma_split_join(parts2, ',');
    lemma_verdict_depends_on_fields(
        payload,
        join(parts1, seq![',']),
        join(parts2, seq![',']),
        secret,
        tolerance,
        now,
    );
}

impl Webhook {
    /// The verdict on a delivery, checked at second `now` of the Unix epoch.
    pub fn verify_signature_at(
        payload: &str,
        header: Option<&str>,
        secret: &str,
        tolerance: u64,
        now: u64,
    ) -> (r: Result<bool, &'static str>)
        ensures
            verdict_is(r, spec_verify(payload@, opt_str(header), secret@, tolerance as int, now as int)),
    {
        if secret.is_empty() {
            return Err("Webhook secret is required");
        }
        let h = match header {
            Some(h) => h,
            None => return Ok(false),
        };
        if h.is_empty() {
            return Ok(false);
        }
        let hv = chars_of(h);
        let (timestamp, signature) = parse_header_fields(hv.as_slice());
        let (ts, sig) = match (timestamp, signature) {
            (Some(t), Some(s)) => (t, s),
            _ => return Ok(false),
        };
        let t = match parse_u64(ts.as_slice()) {
            Some(t) => t,
            None => return Err("Invalid timestamp"),
        };
        let diff = if now >= t {
            now - t
        } else {
            t - now
        };
        if diff > tolerance {
            return Ok(false);
        }
        let mut message = string_from_chars(ts.as_slice());
        message.append(".");
        message.append(payload);
        let tag = hmac_sha256(secret.as_bytes(), message.as_str().as_bytes());
        let expected = to_hex_lower(tag.as_slice());
        let ev = chars_of(expected.as_str());
        Ok(chars_eq(ev.as_slice(), sig.as_slice()))
    }

    /// The verdict on a delivery, checked against the machine's clock (a clock that
    /// reads before the Unix epoch counts as second 0).
    pub fn verify_signature_with_tolerance(
        payload: &str,
        header: Option<&str>,
        secret: &str,
        tolerance: u64,
    ) -> (r: Result<bool, &'static str>)
        ensures
            exists|now: u64|
                verdict_is(
                    r,
                    spec_verify(payload@, opt_str(header), secret@, tolerance as int, now as int),
                ),
    {
        let now = match unix_time_secs() {
            Some(t) => t,
            None => 0,
        };
        Self::verify_signature_at(payload, header, secret, tolerance, now)
    }

    /// The verdict on a delivery with the default tolerance of five minutes.
    pub fn verify_signature(payload: &str, header: Option<&str>, secret: &str) -> (r: Result<
        bool,
        &'static str,
    >)
        ensures
            exists|now: u64|
                verdict_is(
                    r,
                    spec_verify(
                        payload@,
                        opt_str(header),
                        secret@,
                        DEFAULT_TOLERANCE_SECS as int,
                        now as int,
                    ),
                ),
    {
        Self::verify_signature_with_tolerance(payload, header, secret, DEFAULT_TOLERANCE_SECS)
    }
}

} // verus!
