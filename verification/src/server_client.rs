use vstd::prelude::*;

use crate::auth::{spec_auth_header, spec_signature, Auth};
use crate::errors::{ErrorView, MuxiError};
use crate::formation_client::events_view;
use crate::http::{
    base_headers, base_request_headers, build_http_client, HttpClient, headers_view, push_header, sdk_header_value,
    sdk_value,
};
use crate::json::{model, Json};
use crate::response::{
    check_response, opt_str_view, parse_success_body, spec_response_error, spec_success_body,
};
use crate::sys::{is_uuid_v4_text, new_uuid_v4};
use crate::text::{
    all_ws, lacks, lemma_split_join, lemma_trim_padding, split_char, strip_cr, chars_of, chars_start_with, decimal, join, trim_end_char, trim_end_matches_char, u64_to_string, join_strings, lines, lines_of, starts_with,
    string_from_chars, trim, trim_chars, views,
};
use crate::SseEvent;

verus! {

// ---------------------------------------------------------------------------
// Server-sent events of a whole response body
// ---------------------------------------------------------------------------

/// The events read so far, the event type being read and its data lines.
pub struct SseText {
    pub events: Seq<(Seq<char>, Seq<char>)>,
    pub current: Option<Seq<char>>,
    pub parts: Seq<Seq<char>>,
}

/// Reading one line of a body: comments (leading colon) are skipped; an empty line ends
/// an event that has data (type `message` by default, data lines joined by line feeds);
/// `event:` sets the type and `data:` adds a data line, both trimmed.
pub open spec fn sse_text_step(acc: SseText, line: Seq<char>) -> SseText {
    if line.len() > 0 && line[0] == ':' {
        acc
    } else if line.len() == 0 {
        if acc.parts.len() > 0 {
            SseText {
                events: acc.events.push(
                    (
                        match acc.current {
                            Some(e) => e,
                            None => "message"@,
                        },
                        join(acc.parts, "\n"@),
                    ),
                ),
                current: None,
                parts: Seq::empty(),
            }
        } else {
            acc
        }
    } else if starts_with(line, "event:"@) {
        SseText { current: Some(trim(line.skip("event:"@.len() as int))), ..acc }
    } else if starts_with(line, "data:"@) {
        SseText { parts: acc.parts.push(trim(line.skip("data:"@.len() as int))), ..acc }
    } else {
        acc
    }
}

/// Reading lines in order.
pub open spec fn sse_text_fold(ls: Seq<Seq<char>>) -> SseText
    decreases ls.len(),
{
    if ls.len() == 0 {
        SseText { events: Seq::empty(), current: None, parts: Seq::empty() }
    } else {
        sse_text_step(sse_text_fold(ls.drop_last()), ls.last())
    }
}

/// The events of a whole body; an event still open when the body ends is dropped.
pub open spec fn spec_parse_sse_events(text: Seq<char>) -> Seq<(Seq<char>, Seq<char>)> {
    sse_text_fold(lines(text)).events
}

/// Reading lines in order from a given state.
pub open spec fn sse_fold_from(acc: SseText, ls: Seq<Seq<char>>) -> SseText
    decreases ls.len(),
{
    if ls.len() == 0 {
        acc
    } else {
        sse_text_step(sse_fold_from(acc, ls.drop_last()), ls.last())
    }
}

/// The state before any line is read.
pub open spec fn sse_start() -> SseText {
    SseText { events: Seq::empty(), current: None, parts: Seq::empty() }
}

proof fn lemma_fold_from_append(acc: SseText, a: Seq<Seq<char>>, b: Seq<Seq<char>>)
    ensures
        sse_fold_from(acc, a + b) == sse_fold_from(sse_fold_from(acc, a), b),
    decreases b.len(),
{
    if b.len() == 0 {
        assert(a + b == a);
    } else {
        lemma_fold_from_append(acc, a, b.drop_last());
        assert((a + b).drop_last() == a + b.drop_last());
        assert((a + b).last() == b.last());
    }
}

proof fn lemma_fold_is_from_start(ls: Seq<Seq<char>>)
    ensures
        sse_text_fold(ls) == sse_fold_from(sse_start(), ls),
    decreases ls.len(),
{
    if ls.len() > 0 {
        lemma_fold_is_from_start(ls.drop_last());
    }
}

/// The line that names an event's type.
pub open spec fn sse_event_line(name: Seq<char>) -> Seq<char> {
    "event: "@ + name
}

/// A line of an event's data.
pub open spec fn sse_data_line(data: Seq<char>) -> Seq<char> {
    "data: "@ + data
}

/// The lines of one event as a server writes it: an `event:` line when it has a type, a
/// `data:` line for each data line, and the empty line that ends it.
pub open spec fn sse_frame_lines(name: Option<Seq<char>>, data: Seq<Seq<char>>) -> Seq<Seq<char>> {
    (match name {
        Some(n) => seq![sse_event_line(n)],
        None => Seq::empty(),
    }) + data.map_values(|d: Seq<char>| sse_data_line(d)) + seq![Seq::<char>::empty()]
}

/// The lines of events written one after the other.
pub open spec fn sse_frames_lines(frames: Seq<(Option<Seq<char>>, Seq<Seq<char>>)>) -> Seq<Seq<char>>
    decreases frames.len(),
{
    if frames.len() == 0 {
        Seq::empty()
    } else {
        sse_frames_lines(frames.drop_last()) + sse_frame_lines(frames.last().0, frames.last().1)
    }
}

/// The event a written event stands for: its type, `message` when it names none, and its
/// data lines joined by line feeds.
pub open spec fn sse_frame_event(frame: (Option<Seq<char>>, Seq<Seq<char>>)) -> (Seq<char>, Seq<char>) {
    (
        match frame.0 {
            Some(n) => n,
            None => "message"@,
        },
        join(frame.1, "\n"@),
    )
}

/// A text that can stand on a line by itself and survives trimming: no line breaks, no
/// surrounding whitespace.
pub open spec fn sse_plain(t: Seq<char>) -> bool {
    lacks(t, '\n') && lacks(t, '\r') && trim(t) == t
}

/// An event a server can write: at least one data line, and plain type and data.
pub open spec fn sse_frame_ok(frame: (Option<Seq<char>>, Seq<Seq<char>>)) -> bool {
    &&& frame.1.len() > 0
    &&& (frame.0 is Some ==> sse_plain(frame.0.unwrap()))
    &&& forall|i: int| 0 <= i < frame.1.len() ==> sse_plain(#[trigger] frame.1[i])
}

proof fn lemma_prefix_trim(p: Seq<char>, x: Seq<char>)
    requires
        trim(x) == x,
    ensures
        trim(seq![' '] + x) == x,
{
    assert(all_ws(seq![' ']));
    assert(all_ws(Seq::<char>::empty()));
    lemma_trim_padding(seq![' '], x, Seq::<char>::empty());
    assert(seq![' '] + x + Seq::<char>::empty() == seq![' '] + x);
}

proof fn lemma_step_event_line(acc: SseText, n: Seq<char>)
    requires
        trim(n) == n,
    ensures
        sse_text_step(acc, sse_event_line(n)) == (SseText { current: Some(n), ..acc }),
{
    reveal_strlit("event: ");
    reveal_strlit("event:");
    let line = sse_event_line(n);
    assert(line.take(6) =~= "event:"@);
    assert(line.skip(6) =~= seq![' '] + n);
    lemma_prefix_trim(seq![' '], n);
}

proof fn lemma_step_data_line(acc: SseText, d: Seq<char>)
    requires
        trim(d) == d,
    ensures
        sse_text_step(acc, sse_data_line(d)) == (SseText { parts: acc.parts.push(d), ..acc }),
{
    reveal_strlit("data: ");
    reveal_strlit("data:");
    reveal_strlit("event:");
    let line = sse_data_line(d);
    assert(line.take(6)[0] != "event:"@[0]);
    assert(line.take(5) =~= "data:"@);
    assert(line.skip(5) =~= seq![' '] + d);
    lemma_prefix_trim(seq![' '], d);
}

proof fn lemma_fold_data_lines(acc: SseText, ds: Seq<Seq<char>>)
    requires
        forall|i: int| 0 <= i < ds.len() ==> trim(#[trigger] ds[i]) == ds[i],
    ensures
        sse_fold_from(acc, ds.map_values(|d: Seq<char>| sse_data_line(d))) == (SseText {
            parts: acc.parts + ds,
            ..acc
        }),
    decreases ds.len(),
{
    let ls = ds.map_values(|d: Seq<char>| sse_data_line(d));
    if ds.len() == 0 {
        assert(acc.parts + ds == acc.parts);
    } else {
        let init = ds.drop_last();
        assert forall|i: int| 0 <= i < init.len() implies trim(#[trigger] init[i]) == init[i] by {
            assert(init[i] == ds[i]);
        }
        lemma_fold_data_lines(acc, init);
        assert(ls.drop_last() == init.map_values(|d: Seq<char>| sse_data_line(d)));
        assert(ls.last() == sse_data_line(ds.last()));
        assert(trim(ds[ds.len() - 1]) == ds[ds.len() - 1]);
        lemma_step_data_line(SseText { parts: acc.parts + init, ..acc }, ds.last());
        assert((acc.parts + init).push(ds.last()) == acc.parts + ds);
    }
}

/// Reading one written event from a state with no open event adds its event and leaves
/// no event open: its type does not carry over to the next event.
pub proof fn lemma_fold_frame(acc: SseText, frame: (Option<Seq<char>>, Seq<Seq<char>>))
    requires
        acc.current is None,
        acc.parts.len() == 0,
        sse_frame_ok(frame),
    ensures
        sse_fold_from(acc, sse_frame_lines(frame.0, frame.1)) == (SseText {
            events: acc.events.push(sse_frame_event(frame)),
            current: None,
            parts: Seq::empty(),
        }),
{
    let head: Seq<Seq<char>> = match frame.0 {
        Some(n) => seq![sse_event_line(n)],
        None => Seq::empty(),
    };
    let body = frame.1.map_values(|d: Seq<char>| sse_data_line(d));
    let end = seq![Seq::<char>::empty()];
    assert(sse_frame_lines(frame.0, frame.1) == head + body + end);
    lemma_fold_from_append(acc, head + body, end);
    lemma_fold_from_append(acc, head, body);
    let s1 = sse_fold_from(acc, head);
    match frame.0 {
        Some(n) => {
            assert(head.drop_last() =~= Seq::<Seq<char>>::empty());
            assert(head.last() == sse_event_line(n));
            assert(sse_fold_from(acc, head.drop_last()) == acc);
            assert(sse_plain(n));
            lemma_step_event_line(acc, n);
            assert(s1 == (SseText { current: Some(n), ..acc }));
        },
        None => {
            assert(s1 == acc);
        },
    }
    assert forall|i: int| 0 <= i < frame.1.len() implies trim(#[trigger] frame.1[i]) == frame.1[i] by {
        assert(sse_plain(frame.1[i]));
    }
    lemma_fold_data_lines(s1, frame.1);
    let s2 = sse_fold_from(s1, body);
    assert(s2.parts == frame.1) by {
        assert(Seq::<Seq<char>>::empty() + frame.1 == frame.1);
    }
    assert(end.drop_last() =~= Seq::<Seq<char>>::empty());
    assert(end.last() == Seq::<char>::empty());
    assert(sse_fold_from(s2, end.drop_last()) == s2);
    assert(s2.current == s1.current);
    assert(s2.events == acc.events);
    assert(sse_fold_from(s2, end) == sse_text_step(s2, Seq::<char>::empty()));
}

/// Reading written events one after the other gives their events in order.
pub proof fn lemma_fold_frames(frames: Seq<(Option<Seq<char>>, Seq<Seq<char>>)>)
    requires
        forall|i: int| 0 <= i < frames.len() ==> sse_frame_ok(#[trigger] frames[i]),
    ensures
        sse_fold_from(sse_start(), sse_frames_lines(frames)) == (SseText {
            events: frames.map_values(|f: (Option<Seq<char>>, Seq<Seq<char>>)| sse_frame_event(f)),
            current: None,
            parts: Seq::empty(),
        }),
    decreases frames.len(),
{
    let ev = frames.map_values(|f: (Option<Seq<char>>, Seq<Seq<char>>)| sse_frame_event(f));
    if frames.len() == 0 {
        assert(ev =~= Seq::<(Seq<char>, Seq<char>)>::empty());
    } else {
        let init = frames.drop_last();
        assert forall|i: int| 0 <= i < init.len() implies sse_frame_ok(#[trigger] init[i]) by {
            assert(init[i] == frames[i]);
        }
        lemma_fold_frames(init);
        lemma_fold_from_append(
            sse_start(),
            sse_frames_lines(init),
            sse_frame_lines(frames.last().0, frames.last().1),
        );
        assert(sse_frame_ok(frames[frames.len() - 1]));
        lemma_fold_frame(sse_fold_from(sse_start(), sse_frames_lines(init)), frames.last());
        assert(ev == init.map_values(|f: (Option<Seq<char>>, Seq<Seq<char>>)| sse_frame_event(f)).push(
            sse_frame_event(frames.last()),
        ));
    }
}

/// A body written as events one after the other, each ended by an empty line, reads back
/// as exactly those events: each with its own type, or `message` when it names none (a
/// type never carries over from an earlier event), and its data lines joined by line
/// feeds.
pub proof fn lemma_parse_written_events(frames: Seq<(Option<Seq<char>>, Seq<Seq<char>>)>)
    requires
        forall|i: int| 0 <= i < frames.len() ==> sse_frame_ok(#[trigger] frames[i]),
    ensures
        spec_parse_sse_events(join(sse_frames_lines(frames).push(Seq::<char>::empty()), seq!['\n']))
            == frames.map_values(|f: (Option<Seq<char>>, Seq<Seq<char>>)| sse_frame_event(f)),
{
    let ls = sse_frames_lines(frames);
    lemma_frames_lines_plain(frames);
    let all = ls.push(Seq::<char>::empty());
    assert forall|i: int| 0 <= i < all.len() implies lacks(#[trigger] all[i], '\n') by {
        if i < ls.len() {
            assert(all[i] == ls[i]);
        }
    }
    lemma_split_join(all, '\n');
    let text = join(all, seq!['\n']);
    assert(split_char(text, '\n').drop_last() == ls);
    assert(ls.map_values(|l: Seq<char>| strip_cr(l)) =~= ls) by {
        assert forall|i: int| 0 <= i < ls.len() implies strip_cr(#[trigger] ls[i]) == ls[i] by {
            assert(ls[i].len() == 0 || ls[i].last() != '\r');
        }
    }
    assert(lines(text) == ls);
    lemma_fold_is_from_start(ls);
    lemma_fold_frames(frames);
}

/// The lines of written events hold no line feed and none ends with a carriage return.
proof fn lemma_frames_lines_plain(frames: Seq<(Option<Seq<char>>, Seq<Seq<char>>)>)
    requires
        forall|i: int| 0 <= i < frames.len() ==> sse_frame_ok(#[trigger] frames[i]),
    ensures
        forall|i: int|
            0 <= i < sse_frames_lines(frames).len() ==> lacks(#[trigger] sse_frames_lines(frames)[i], '\n')
                && (sse_frames_lines(frames)[i].len() == 0 || sse_frames_lines(frames)[i].last() != '\r'),
    decreases frames.len(),
{
    reveal_strlit("event: ");
    reveal_strlit("data: ");
    if frames.len() > 0 {
        let init = frames.drop_last();
        assert forall|i: int| 0 <= i < init.len() implies sse_frame_ok(#[trigger] init[i]) by {
            assert(init[i] == frames[i]);
        }
        lemma_frames_lines_plain(init);
        let f = frames.last();
        assert(sse_frame_ok(frames[frames.len() - 1]));
        let a = sse_frames_lines(init);
        let b = sse_frame_lines(f.0, f.1);
        let head: Seq<Seq<char>> = match f.0 {
            Some(n) => seq![sse_event_line(n)],
            None => Seq::empty(),
        };
        let body = f.1.map_values(|d: Seq<char>| sse_data_line(d));
        assert(b == head + body + seq![Seq::<char>::empty()]);
        assert forall|i: int| 0 <= i < (a + b).len() implies lacks(#[trigger] (a + b)[i], '\n') && ((a
            + b)[i].len() == 0 || (a + b)[i].last() != '\r') by {
            if i < a.len() {
                assert((a + b)[i] == a[i]);
            } else {
                let j = i - a.len();
                assert((a + b)[i] == b[j]);
                if j < head.len() {
                    let n = f.0.unwrap();
                    assert(sse_plain(n));
                    let l = sse_event_line(n);
                    assert(b[j] == l);
                    assert forall|k: int| 0 <= k < l.len() implies l[k] != '\n' by {
                        if k >= 7 {
                            assert(l[k] == n[k - 7]);
                        }
                    }
                    if n.len() > 0 {
                        assert(l.last() == n.last());
                    }
                } else if j < head.len() + body.len() {
                    let k0 = j - head.len();
                    let d = f.1[k0];
                    assert(sse_plain(d));
                    let l = sse_data_line(d);
                    assert(b[j] == body[k0]);
                    assert(body[k0] == l);
                    assert forall|k: int| 0 <= k < l.len() implies l[k] != '\n' by {
                        if k >= 6 {
                            assert(l[k] == d[k - 6]);
                        }
                    }
                    if d.len() > 0 {
                        assert(l.last() == d.last());
                    }
                } else {
                    assert(b[j] == Seq::<char>::empty());
                }
            }
        }
    }
}

/// The events of a whole `text/event-stream` body.
pub fn parse_sse_events(text: &str) -> (r: Vec<SseEvent>)
    ensures
        events_view(r@) == spec_parse_sse_events(text@),
{
    let tv = chars_of(text);
    let ls = lines_of(tv.as_slice());
    let ghost lsv = lines(text@);
    let mut events: Vec<SseEvent> = Vec::new();
    let mut current: Option<String> = None;
    let mut parts: Vec<String> = Vec::new();
    assert(events_view(events@) =~= Seq::<(Seq<char>, Seq<char>)>::empty());
    assert(views(parts@) =~= Seq::<Seq<char>>::empty());
    for i in 0..ls.len()
        invariant
            ls@.len() == lsv.len(),
            forall|j: int| 0 <= j < ls@.len() ==> #[trigger] ls@[j]@ == lsv[j],
            ({
                let acc = sse_text_fold(lsv.take(i as int));
                &&& events_view(events@) == acc.events
                &&& match current {
                    Some(c) => acc.current == Some(c@),
                    None => acc.current is None,
                }
                &&& views(parts@) == acc.parts
            }),
    {
        let line = ls[i].as_slice();
        assert(lsv.take(i + 1).drop_last() == lsv.take(i as int));
        assert(lsv.take(i + 1).last() == line@);
        let ghost ev0 = events_view(events@);
        let ghost parts0 = views(parts@);
        if line.len() > 0 && line[0] == ':' {
        } else if line.len() == 0 {
            if parts.len() > 0 {
                let event = match current {
                    Some(e) => e,
                    None => String::from_str("message"),
                };
                let data = join_strings(&parts, "\n");
                let ev = SseEvent { event, data };
                events.push(ev);
                assert(events_view(events@) == ev0.push(ev@));
                current = None;
                parts = Vec::new();
                assert(views(parts@) =~= Seq::<Seq<char>>::empty());
            }
        } else if chars_start_with(line, "event:") {
            let n = chars_of("event:").len();
            let rest = line.split_at(n).1;
            current = Some(string_from_chars(trim_chars(rest).as_slice()));
        } else if chars_start_with(line, "data:") {
            let n = chars_of("data:").len();
            let rest = line.split_at(n).1;
            parts.push(string_from_chars(trim_chars(rest).as_slice()));
            assert(views(parts@) == parts0.push(trim(line@.skip("data:"@.len() as int))));
        }
    }
    assert(lsv.take(lsv.len() as int) == lsv);
    events
}


// ---------------------------------------------------------------------------
// Configuration and client
// ---------------------------------------------------------------------------

/// Where and how to reach a MUXI server.
#[derive(Clone)]
pub struct ServerConfig {
    pub url: String,
    pub key_id: String,
    pub secret_key: String,
    pub timeout: u64,
    pub max_retries: u32,
    /// The application name sent for telemetry, if any.
    pub app: Option<String>,
}

impl ServerConfig {
    /// A configuration with the server URL (trailing slashes removed), the key pair, a
    /// 30 second timeout and no retries.
    pub fn new(url: &str, key_id: &str, secret_key: &str) -> (c: Self)
        ensures
            c.url@ == trim_end_char(url@, '/'),
            c.url@.len() == 0 || c.url@.last() != '/',
            c.key_id@ == key_id@,
            c.secret_key@ == secret_key@,
            c.timeout == 30,
            c.max_retries == 0,
            c.app is None,
    {
        ServerConfig {
            url: trim_end_matches_char(url, '/'),
            key_id: String::from_str(key_id),
            secret_key: String::from_str(secret_key),
            timeout: 30,
            max_retries: 0,
            app: None,
        }
    }
}

/// A client of a MUXI server's management API.
#[derive(Clone)]
pub struct ServerClient {
    config: ServerConfig,
    client: HttpClient,
}

/// The headers of a request to the server: the common ones, `Content-Type` when it has
/// a body, and the signed `Authorization` header when it is authenticated.
pub open spec fn spec_server_headers(
    key_id: Seq<char>,
    secret_key: Seq<char>,
    method: Seq<char>,
    path: Seq<char>,
    auth: bool,
    has_body: bool,
    idempotency_key: Seq<char>,
    os: Seq<char>,
    arch: Seq<char>,
    timestamp: nat,
) -> Seq<(Seq<char>, Seq<char>)> {
    let base = base_headers(idempotency_key, os, arch);
    let with_body = if has_body {
        base.push(("Content-Type"@, "application/json"@))
    } else {
        base
    };
    if auth {
        with_body.push(
            (
                "Authorization"@,
                spec_auth_header(
                    key_id,
                    spec_signature(method, path, secret_key, timestamp),
                    decimal(timestamp),
                ),
            ),
        )
    } else {
        with_body
    }
}

/// The headers of a streaming request to the server: SDK identification, the signed
/// `Authorization` header, the event-stream type, and `Content-Type` when it has a body.
pub open spec fn spec_server_stream_headers(
    key_id: Seq<char>,
    secret_key: Seq<char>,
    method: Seq<char>,
    path: Seq<char>,
    has_body: bool,
    timestamp: nat,
) -> Seq<(Seq<char>, Seq<char>)> {
    let h = seq![
        ("X-Muxi-SDK"@, sdk_value()),
        (
            "Authorization"@,
            spec_auth_header(key_id, spec_signature(method, path, secret_key, timestamp), decimal(timestamp)),
        ),
        ("Accept"@, "text/event-stream"@),
    ];
    if has_body {
        h.push(("Content-Type"@, "application/json"@))
    } else {
        h
    }
}

/// The path of a formation's logs, with the limit as a query parameter when given.
pub open spec fn spec_formation_logs_path(formation_id: Seq<char>, limit: Option<u32>) -> Seq<char> {
    match limit {
        Some(l) => "/rpc/formations/"@ + formation_id + "/logs?limit="@ + decimal(l as nat),
        None => "/rpc/formations/"@ + formation_id + "/logs"@,
    }
}

/// The path of the server's logs, with the limit as a query parameter when given.
pub open spec fn spec_server_logs_path(limit: Option<u32>) -> Seq<char> {
    match limit {
        Some(l) => "/rpc/server/logs?limit="@ + decimal(l as nat),
        None => "/rpc/server/logs"@,
    }
}

impl ServerClient {
    /// The configuration the client was made with.
    pub closed spec fn spec_config(&self) -> ServerConfig {
        self.config
    }

    /// A client for the configuration, with an HTTP client that times out after the
    /// configured number of seconds; a `Request` error when that cannot be built.
    pub fn new(config: ServerConfig) -> (r: Result<Self, MuxiError>)
        ensures
            match r {
                Ok(c) => c.spec_config() == config && c.spec_timeout() == config.timeout,
                Err(e) => e@ == ErrorView::Request,
            },
    {
        match build_http_client(config.timeout) {
            Ok(client) => Ok(ServerClient { config, client }),
            Err(e) => Err(MuxiError::Request(e)),
        }
    }

    /// How many times a failed request may be retried.
    pub fn max_retries(&self) -> (r: u32)
        ensures
            r == self.spec_config().max_retries,
    {
        self.config.max_retries
    }

    /// The HTTP client that sends the requests: the one the client holds.
    pub fn http_client(&self) -> (c: &reqwest::Client)
        ensures
            *c == self.spec_http_client(),
    {
        self.client.client()
    }

    /// The HTTP client the client holds, built when the client was made.
    pub closed spec fn spec_http_client(&self) -> reqwest::Client {
        self.client.spec_client()
    }

    /// The request timeout, in seconds, of the HTTP client the client holds.
    pub closed spec fn spec_timeout(&self) -> u64 {
        self.client.spec_timeout()
    }

    /// The request timeout, in seconds, of the HTTP client the client holds.
    pub fn timeout_secs(&self) -> (t: u64)
        ensures
            t == self.spec_timeout(),
    {
        self.client.timeout_secs()
    }

    /// The full URL of a path on the server.
    pub fn url_for(&self, path: &str) -> (r: String)
        ensures
            r@ == self.spec_config().url@ + path@,
    {
        let mut r = self.config.url.clone();
        r.append(path);
        r
    }

    /// The headers of a request from a platform (operating system and CPU architecture),
    /// signed now and with a fresh idempotency key.
    pub fn request_headers(
        &self,
        method: &str,
        path: &str,
        auth: bool,
        has_body: bool,
        os: &str,
        arch: &str,
    ) -> (r: Vec<(String, String)>)
        ensures
            exists|key: Seq<char>, t: u64|
                is_uuid_v4_text(key) && headers_view(r@) == spec_server_headers(
                    self.spec_config().key_id@,
                    self.spec_config().secret_key@,
                    method@,
                    path@,
                    auth,
                    has_body,
                    key,
                    os@,
                    arch@,
                    t as nat,
                ),
    {
        let key = new_uuid_v4();
        let mut h = base_request_headers(key.as_str(), os, arch);
        if has_body {
            push_header(&mut h, "Content-Type", "application/json");
        }
        let ghost before = headers_view(h@);
        let (signature, timestamp) = Auth::generate_hmac_signature(
            method,
            path,
            self.config.key_id.as_str(),
            self.config.secret_key.as_str(),
        );
        let ghost t = choose|t: u64|
            signature@ == spec_signature(method@, path@, self.config.secret_key@, t as nat)
                && timestamp@ == decimal(t as nat);
        if auth {
            let value = Auth::build_auth_header(
                self.config.key_id.as_str(),
                signature.as_str(),
                timestamp.as_str(),
            );
            push_header(&mut h, "Authorization", value.as_str());
        }
        assert(headers_view(h@) == spec_server_headers(
            self.config.key_id@,
            self.config.secret_key@,
            method@,
            path@,
            auth,
            has_body,
            key@,
            os@,
            arch@,
            t as nat,
        ));
        h
    }

    /// The headers of a streaming request, signed now.
    pub fn stream_headers(&self, method: &str, path: &str, has_body: bool) -> (r: Vec<
        (String, String),
    >)
        ensures
            exists|t: u64|
                headers_view(r@) == spec_server_stream_headers(
                    self.spec_config().key_id@,
                    self.spec_config().secret_key@,
                    method@,
                    path@,
                    has_body,
                    t as nat,
                ),
    {
        let mut h: Vec<(String, String)> = Vec::new();
        assert(headers_view(h@) =~= Seq::<(Seq<char>, Seq<char>)>::empty());
        let sdk = sdk_header_value();
        push_header(&mut h, "X-Muxi-SDK", sdk.as_str());
        let (signature, timestamp) = Auth::generate_hmac_signature(
            method,
            path,
            self.config.key_id.as_str(),
            self.config.secret_key.as_str(),
        );
        let ghost t = choose|t: u64|
            signature@ == spec_signature(method@, path@, self.config.secret_key@, t as nat)
                && timestamp@ == decimal(t as nat);
        let value = Auth::build_auth_header(
            self.config.key_id.as_str(),
            signature.as_str(),
            timestamp.as_str(),
        );
        push_header(&mut h, "Authorization", value.as_str());
        push_header(&mut h, "Accept", "text/event-stream");
        if has_body {
            push_header(&mut h, "Content-Type", "application/json");
        }
        assert(headers_view(h@) =~= spec_server_stream_headers(
            self.config.key_id@,
            self.config.secret_key@,
            method@,
            path@,
            has_body,
            t as nat,
        ));
        h
    }

    /// What a response with `status`, `Retry-After` header and `body` gives: the error for a
    /// status of 400 or above; otherwise the body's JSON value (an empty object for an empty
    /// body), or a `Json` error for a body that is not JSON.
    pub fn handle_response(status: u16, retry_after: Option<&str>, body: String) -> (r: Result<
        Json,
        MuxiError,
    >)
        ensures
            status >= 400 ==> (r matches Err(e) && e@ == spec_response_error(
                status,
                opt_str_view(retry_after),
                body@,
            )),
            status < 400 ==> match spec_success_body(body@) {
                Some(v) => r matches Ok(j) && model(j) == v,
                None => r matches Err(e) && e@ == ErrorView::Json,
            },
    {
        match check_response(status, retry_after, body) {
            Err(e) => Err(e),
            Ok(b) => parse_success_body(b),
        }
    }

    /// The path of a formation's logs.
    pub fn formation_logs_path(formation_id: &str, limit: Option<u32>) -> (r: String)
        ensures
            r@ == spec_formation_logs_path(formation_id@, limit),
    {
        let mut r = String::from_str("/rpc/formations/");
        r.append(formation_id);
        match limit {
            Some(l) => {
                r.append("/logs?limit=");
                let n = u64_to_string(l as u64);
                r.append(n.as_str());
            },
            None => {
                r.append("/logs");
            },
        }
        r
    }

    /// The path of the server's logs.
    pub fn server_logs_path(limit: Option<u32>) -> (r: String)
        ensures
            r@ == spec_server_logs_path(limit),
    {
        match limit {
            Some(l) => {
                let mut r = String::from_str("/rpc/server/logs?limit=");
                let n = u64_to_string(l as u64);
                r.append(n.as_str());
                r
            },
            None => String::from_str("/rpc/server/logs"),
        }
    }
}

} // verus!
