use vstd::prelude::*;

use crate::errors::{opt_view, ErrorView, MuxiError};
use crate::http::{
    base_headers, base_request_headers, build_http_client, HttpClient, headers_view, opt_header, params_view,
    parse_method, push_header, query_string, sdk_value, spec_method, spec_query, HttpMethod,
};
use crate::sys::{is_uuid_v4_text, new_uuid_v4};
use crate::json::{model, spec_json_parse, spec_unwrap_envelope, unwrap_envelope, Json, JsonModel};
use crate::response::{
    check_response, opt_str_view, parse_success_body, spec_response_error, spec_route_error,
};
pub use crate::response::parse_route_error;
use crate::text::{
    chars_of, decimal, find_char, find_char_from, u64_to_string, first_index, lemma_first_index, lemma_first_index_props, trim_end_char,
    trim_end_matches_char, join, join_strings, split_once, str_eq, string_from_chars,
    sub_chars, views,
};
use crate::SseEvent;

verus! {

// ---------------------------------------------------------------------------
// Server-sent events, read line by line
// ---------------------------------------------------------------------------

/// The field name and value of an event-stream line: the text before the first colon
/// and the text after it without one leading space; a line without a colon is a field
/// with an empty value.
pub open spec fn spec_split_sse_field(line: Seq<char>) -> (Seq<char>, Seq<char>) {
    match split_once(line, ':') {
        Some((f, v)) => (f, if v.len() > 0 && v[0] == ' ' {
            v.drop_first()
        } else {
            v
        }),
        None => (line, Seq::<char>::empty()),
    }
}

/// The event type being read and the data lines read so far.
pub struct LineState {
    pub current: Option<Seq<char>>,
    pub parts: Seq<Seq<char>>,
}

/// What reading a line gives: an event, nothing, or an `error` event with its data.
pub type LineOutcome = Result<Option<(Seq<char>, Seq<char>)>, Seq<char>>;

/// Ending the event being read: nothing when no type or data was read; otherwise the
/// event (type `message` by default, data lines joined by line feeds), or its data when
/// its type is `error`. The state is cleared either way.
pub open spec fn spec_flush(ls: LineState) -> (LineState, LineOutcome) {
    if ls.current is None && ls.parts.len() == 0 {
        (ls, Ok(None))
    } else {
        let event = match ls.current {
            Some(e) => e,
            None => "message"@,
        };
        let data = join(ls.parts, "\n"@);
        let cleared = LineState { current: None, parts: Seq::<Seq<char>>::empty() };
        if event == "error"@ {
            (cleared, Err(data))
        } else {
            (cleared, Ok(Some((event, data))))
        }
    }
}

/// Reading one line: a comment (leading colon) is skipped, an empty line ends the
/// event, `event` sets the type, `data` adds a data line, other fields are ignored.
pub open spec fn spec_process_line(ls: LineState, line: Seq<char>) -> (LineState, LineOutcome) {
    if line.len() > 0 && line[0] == ':' {
        (ls, Ok(None))
    } else if line.len() == 0 {
        spec_flush(ls)
    } else {
        let (field, value) = spec_split_sse_field(line);
        if field == "event"@ {
            (LineState { current: Some(value), parts: ls.parts }, Ok(None))
        } else if field == "data"@ {
            (LineState { current: ls.current, parts: ls.parts.push(value) }, Ok(None))
        } else {
            (ls, Ok(None))
        }
    }
}

/// The events of an outcome.
pub open spec fn outcome_events(o: Option<(Seq<char>, Seq<char>)>) -> Seq<(Seq<char>, Seq<char>)> {
    match o {
        Some(e) => seq![e],
        None => Seq::empty(),
    }
}

/// `events` followed by those of `r`, or the error of `r`.
pub open spec fn prepend_events(
    events: Seq<(Seq<char>, Seq<char>)>,
    r: Result<Seq<(Seq<char>, Seq<char>)>, Seq<char>>,
) -> Result<Seq<(Seq<char>, Seq<char>)>, Seq<char>> {
    match r {
        Ok(es) => Ok(events + es),
        Err(d) => Err(d),
    }
}

/// Reading every complete line of a buffer: the unread rest, the state, and the events
/// read, or the data of the first `error` event (reading stops there). A line ends at a
/// line feed and loses one carriage return before it.
pub open spec fn spec_drain(buffer: Seq<char>, ls: LineState) -> (
    Seq<char>,
    LineState,
    Result<Seq<(Seq<char>, Seq<char>)>, Seq<char>>,
)
    decreases buffer.len(),
{
    match first_index(buffer, '\n') {
        None => (buffer, ls, Ok(Seq::empty())),
        Some(i) => {
            let line = {
                let l = buffer.take(i);
                if l.len() > 0 && l.last() == '\r' {
                    l.drop_last()
                } else {
                    l
                }
            };
            let rest = buffer.skip(i + 1);
            let (ls2, r) = spec_process_line(ls, line);
            match r {
                Err(d) => (rest, ls2, Err(d)),
                Ok(o) => if 0 <= i < buffer.len() {
                    let (rest3, ls3, r3) = spec_drain(rest, ls2);
                    (rest3, ls3, prepend_events(outcome_events(o), r3))
                } else {
                    (rest, ls2, Ok(outcome_events(o)))
                },
            }
        },
    }
}

/// The views of a list of events.
pub open spec fn events_view(es: Seq<SseEvent>) -> Seq<(Seq<char>, Seq<char>)> {
    es.map_values(|e: SseEvent| e@)
}

/// Reading what is left in the buffer when the body ends: the unterminated last line
/// (without trailing carriage returns), then the end of the event being read.
pub open spec fn spec_finish(buffer: Seq<char>, ls: LineState) -> (
    LineState,
    Result<Seq<(Seq<char>, Seq<char>)>, Seq<char>>,
) {
    let (ls1, r1) = if buffer.len() > 0 {
        spec_process_line(ls, trim_end_char(buffer, '\r'))
    } else {
        (ls, Ok(None))
    };
    match r1 {
        Err(d) => (ls1, Err(d)),
        Ok(o1) => {
            let (ls2, r2) = spec_flush(ls1);
            (ls2, match r2 {
                Err(d) => Err(d),
                Ok(o2) => Ok(outcome_events(o1) + outcome_events(o2)),
            })
        },
    }
}

/// A line feed found in a prefix is the first one of any extension.
pub proof fn lemma_first_index_extend(b: Seq<char>, y: Seq<char>, c: char)
    requires
        first_index(b, c) is Some,
    ensures
        first_index(b + y, c) == first_index(b, c),
{
    lemma_first_index_props(b, c);
    let i = first_index(b, c)->Some_0;
    assert forall|j: int| 0 <= j < i implies (b + y)[j] != c by {
        assert((b + y)[j] == b[j]);
    }
    lemma_first_index(b + y, c, i);
}

/// Reading a buffer followed by more text reads the buffer's events, then what its
/// unread rest followed by the text gives, as long as the buffer met no error event.
/// So the events of a stream do not depend on where its chunks end.
pub proof fn lemma_drain_extend(b: Seq<char>, y: Seq<char>, ls: LineState)
    requires
        spec_drain(b, ls).2 is Ok,
    ensures
        ({
            let (rest, ls1, r) = spec_drain(b, ls);
            let (rest2, ls2, r2) = spec_drain(rest + y, ls1);
            spec_drain(b + y, ls) == (rest2, ls2, prepend_events(r->Ok_0, r2))
        }),
    decreases b.len(),
{
    lemma_first_index_props(b, '\n');
    match first_index(b, '\n') {
        None => {
            let (rest2, ls2, r2) = spec_drain(b + y, ls);
            match r2 {
                Ok(es) => assert(Seq::<(Seq<char>, Seq<char>)>::empty() + es == es),
                Err(_) => {},
            }
        },
        Some(i) => {
            lemma_first_index_extend(b, y, '\n');
            assert((b + y).take(i) == b.take(i));
            assert((b + y).skip(i + 1) == b.skip(i + 1) + y);
            let line = {
                let l = b.take(i);
                if l.len() > 0 && l.last() == '\r' {
                    l.drop_last()
                } else {
                    l
                }
            };
            let (ls2, r) = spec_process_line(ls, line);
            lemma_drain_extend(b.skip(i + 1), y, ls2);
            let (rest3, ls3, r3) = spec_drain(b.skip(i + 1), ls2);
            let (rest4, ls4, r4) = spec_drain(rest3 + y, ls3);
            let out = outcome_events(r->Ok_0);
            match r4 {
                Ok(es) => assert(out + (r3->Ok_0 + es) == (out + r3->Ok_0) + es),
                Err(_) => {},
            }
        },
    }
}

/// Reading two chunks one after the other reads what their concatenation gives, when
/// the first chunk meets no error event.
pub proof fn lemma_push_chunk_split(buffer: Seq<char>, ls: LineState, a: Seq<char>, b: Seq<char>)
    requires
        spec_drain(buffer + a, ls).2 is Ok,
    ensures
        ({
            let (rest1, ls1, r1) = spec_drain(buffer + a, ls);
            let (rest2, ls2, r2) = spec_drain(rest1 + b, ls1);
            spec_drain(buffer + (a + b), ls) == (rest2, ls2, prepend_events(r1->Ok_0, r2))
        }),
{
    lemma_drain_extend(buffer + a, b, ls);
    assert(buffer + a + b == buffer + (a + b));
}

/// An incremental reader of a `text/event-stream` body.
pub struct SseEventParser {
    buffer: String,
    current_event: Option<String>,
    data_parts: Vec<String>,
}

impl Default for SseEventParser {
    fn default() -> (p: Self)
        ensures
            p.buffer()@.len() == 0,
            p.line_state() == (LineState { current: None, parts: Seq::empty() }),
    {
        let p = SseEventParser { buffer: String::new(), current_event: None, data_parts: Vec::new() };
        assert(views(p.data_parts@) =~= Seq::<Seq<char>>::empty());
        p
    }
}

/// The field name and value of an event-stream line.
pub fn split_sse_field(line: &str) -> (r: (String, String))
    ensures
        (r.0@, r.1@) == spec_split_sse_field(line@),
{
    let lv = chars_of(line);
    let (f, v) = split_field_chars(lv.as_slice());
    (string_from_chars(f.as_slice()), string_from_chars(v.as_slice()))
}

/// The split of a line into field and value.
fn split_field_chars(line: &[char]) -> (r: (Vec<char>, Vec<char>))
    ensures
        (r.0@, r.1@) == spec_split_sse_field(line@),
{
    match find_char(line, ':') {
        Some(i) => {
            let n = line.len();
            let field = sub_chars(line, 0, i);
            assert(line@.subrange(0, i as int) == line@.take(i as int));
            assert(line@.subrange(i + 1, n as int) == line@.skip(i + 1));
            let value = if i + 1 < n && line[i + 1] == ' ' {
                let v = sub_chars(line, i + 2, n);
                assert(line@.subrange(i + 2, n as int) == line@.skip(i + 1).drop_first());
                v
            } else {
                sub_chars(line, i + 1, n)
            };
            (field, value)
        },
        None => (sub_chars(line, 0, line.len()), Vec::new()),
    }
}

impl SseEventParser {
    /// The unread rest of the body.
    pub closed spec fn buffer(&self) -> String {
        self.buffer
    }

    /// The event being read.
    pub closed spec fn line_state(&self) -> LineState {
        LineState { current: opt_view(self.current_event), parts: views(self.data_parts@) }
    }

    /// Ends the event being read.
    pub fn flush_event(&mut self) -> (r: Result<Option<SseEvent>, MuxiError>)
        ensures
            final(self).buffer() == old(self).buffer(),
            ({
                let (ls, o) = spec_flush(old(self).line_state());
                &&& final(self).line_state() == ls
                &&& match r {
                    Ok(Some(e)) => o == Ok::<_, Seq<char>>(Some(e@)),
                    Ok(None) => o == Ok::<_, Seq<char>>(None::<(Seq<char>, Seq<char>)>),
                    Err(e) => o matches Err(d) && e@ == spec_route_error(d),
                }
            }),
    {
        if self.current_event.is_none() && self.data_parts.len() == 0 {
            return Ok(None);
        }
        let event = match &self.current_event {
            Some(e) => e.clone(),
            None => String::from_str("message"),
        };
        let data = join_strings(&self.data_parts, "\n");
        self.current_event = None;
        self.data_parts = Vec::new();
        assert(views(self.data_parts@) == Seq::<Seq<char>>::empty());
        if str_eq(event.as_str(), "error") {
            return Err(parse_route_error(data.as_str()));
        }
        Ok(Some(SseEvent { event, data }))
    }

    /// Takes in a chunk of the body and reads every line it completes.
    pub fn push_chunk(&mut self, chunk: &str) -> (r: Result<Vec<SseEvent>, MuxiError>)
        ensures
            ({
                let (rest, ls, res) = spec_drain(old(self).buffer()@ + chunk@, old(self).line_state());
                &&& final(self).buffer()@ == rest
                &&& final(self).line_state() == ls
                &&& match r {
                    Ok(es) => res == Ok::<_, Seq<char>>(events_view(es@)),
                    Err(e) => res matches Err(d) && e@ == spec_route_error(d),
                }
            }),
    {
        let ghost ls0 = self.line_state();
        let mut buf = chars_of(self.buffer.as_str());
        let more = chars_of(chunk);
        let ghost orig = self.buffer@ + chunk@;
        let mut k: usize = 0;
        while k < more.len()
            invariant
                k <= more@.len(),
                more@ == chunk@,
                buf@ == self.buffer@ + more@.take(k as int),
            decreases more.len() - k,
        {
            buf.push(more[k]);
            assert(more@.take(k + 1) == more@.take(k as int).push(more@[k as int]));
            k = k + 1;
        }
        assert(more@.take(more@.len() as int) == more@);
        assert(buf@ == orig);
        assert(buf@.skip(0) == buf@);
        let mut pos: usize = 0;
        let mut events: Vec<SseEvent> = Vec::new();
        assert(events_view(events@) =~= Seq::<(Seq<char>, Seq<char>)>::empty());
        loop
            invariant
                pos <= buf@.len(),
                buf@ == orig,
                orig == old(self).buffer()@ + chunk@,
                ls0 == old(self).line_state(),
                ({
                    let (rest, ls, res) = spec_drain(buf@.skip(pos as int), self.line_state());
                    spec_drain(orig, ls0) == (rest, ls, prepend_events(events_view(events@), res))
                }),
            decreases buf@.len() - pos,
        {
            let ghost b = buf@.skip(pos as int);
            let ghost ls_now = self.line_state();
            match find_char_from(buf.as_slice(), '\n', pos) {
                None => {
                    proof {
                        let (rest, ls, res) = spec_drain(b, ls_now);
                        assert(res == Ok::<_, Seq<char>>(Seq::<(Seq<char>, Seq<char>)>::empty()));
                        assert(events_view(events@) + Seq::<(Seq<char>, Seq<char>)>::empty()
                            == events_view(events@));
                    }
                    self.buffer = string_from_chars(buf.as_slice().split_at(pos).1);
                    return Ok(events);
                },
                Some(idx) => {
                    assert(idx < buf.len());
                    let mut line = sub_chars(buf.as_slice(), pos, idx);
                    assert(line@ == b.take(idx - pos));
                    let n = line.len();
                    if n > 0 && line[n - 1] == '\r' {
                        line.pop();
                    }
                    let ls_text = string_from_chars(line.as_slice());
                    let ghost old_events = events_view(events@);
                    let res = self.process_line(ls_text.as_str());
                    assert(buf@.skip(idx + 1) == b.skip(idx - pos + 1));
                    pos = idx + 1;
                    match res {
                        Err(e) => {
                            self.buffer = string_from_chars(buf.as_slice().split_at(pos).1);
                            return Err(e);
                        },
                        Ok(o) => {
                            let ghost out = match &o {
                                Some(e) => seq![e@],
                                None => Seq::<(Seq<char>, Seq<char>)>::empty(),
                            };
                            match o {
                                Some(ev) => {
                                    events.push(ev);
                                },
                                None => {},
                            }
                            proof {
                                assert(events_view(events@) == old_events + out);
                                let (rest4, ls4, r4) = spec_drain(buf@.skip(pos as int), self.line_state());
                                match r4 {
                                    Ok(es) => assert(old_events + (out + es) == (old_events + out) + es),
                                    Err(_) => {},
                                }
                            }
                        },
                    }
                },
            }
        }
    }

    /// Reads what is left when the body ends.
    pub fn finish(&mut self) -> (r: Result<Vec<SseEvent>, MuxiError>)
        ensures
            final(self).buffer()@.len() == 0,
            ({
                let (ls, res) = spec_finish(old(self).buffer()@, old(self).line_state());
                &&& final(self).line_state() == ls
                &&& match r {
                    Ok(es) => res == Ok::<_, Seq<char>>(events_view(es@)),
                    Err(e) => res matches Err(d) && e@ == spec_route_error(d),
                }
            }),
    {
        let mut events: Vec<SseEvent> = Vec::new();
        let line = self.buffer.clone();
        self.buffer = String::new();
        let ghost first: Seq<(Seq<char>, Seq<char>)> = Seq::empty();
        if !line.as_str().is_empty() {
            let trimmed = trim_end_matches_char(line.as_str(), '\r');
            match self.process_line(trimmed.as_str()) {
                Err(e) => return Err(e),
                Ok(Some(ev)) => {
                    proof {
                        first = seq![ev@];
                    }
                    events.push(ev);
                },
                Ok(None) => {},
            }
        }
        assert(events_view(events@) == first);
        match self.flush_event() {
            Err(e) => Err(e),
            Ok(Some(ev)) => {
                events.push(ev);
                assert(events_view(events@) == first + seq![ev@]);
                Ok(events)
            },
            Ok(None) => {
                assert(events_view(events@) == first + Seq::<(Seq<char>, Seq<char>)>::empty());
                Ok(events)
            },
        }
    }

    /// Reads one line.
    pub fn process_line(&mut self, line: &str) -> (r: Result<Option<SseEvent>, MuxiError>)
        ensures
            final(self).buffer() == old(self).buffer(),
            ({
                let (ls, o) = spec_process_line(old(self).line_state(), line@);
                &&& final(self).line_state() == ls
                &&& match r {
                    Ok(Some(e)) => o == Ok::<_, Seq<char>>(Some(e@)),
                    Ok(None) => o == Ok::<_, Seq<char>>(None::<(Seq<char>, Seq<char>)>),
                    Err(e) => o matches Err(d) && e@ == spec_route_error(d),
                }
            }),
    {
        let lv = chars_of(line);
        if lv.len() > 0 && lv[0] == ':' {
            return Ok(None);
        }
        if lv.len() == 0 {
            return self.flush_event();
        }
        let (field, value) = split_field_chars(lv.as_slice());
        let f = string_from_chars(field.as_slice());
        if str_eq(f.as_str(), "event") {
            self.current_event = Some(string_from_chars(value.as_slice()));
        } else if str_eq(f.as_str(), "data") {
            let ghost before = views(self.data_parts@);
            self.data_parts.push(string_from_chars(value.as_slice()));
            assert(views(self.data_parts@) == before.push(value@));
        }
        Ok(None)
    }
}


// ---------------------------------------------------------------------------
// Configuration and client
// ---------------------------------------------------------------------------

/// Where and how to reach a formation: through a server (`server_url` and
/// `formation_id`) or directly (`base_url`), with its client and admin keys.
#[derive(Clone)]
pub struct FormationConfig {
    pub server_url: Option<String>,
    pub formation_id: Option<String>,
    pub base_url: Option<String>,
    pub client_key: Option<String>,
    pub admin_key: Option<String>,
    pub timeout: u64,
    /// `live` (the default) or `draft` for local development.
    pub mode: String,
    /// The application name sent for telemetry, if any.
    pub app: Option<String>,
}

impl FormationConfig {
    /// A configuration that reaches the formation through a server, live, with a 30
    /// second timeout.
    pub fn new(server_url: &str, formation_id: &str, client_key: &str, admin_key: &str) -> (c: Self)
        ensures
            opt_view(c.server_url) == Some(server_url@),
            opt_view(c.formation_id) == Some(formation_id@),
            c.base_url is None,
            opt_view(c.client_key) == Some(client_key@),
            opt_view(c.admin_key) == Some(admin_key@),
            c.timeout == 30,
            c.mode@ == "live"@,
            c.app is None,
    {
        FormationConfig {
            server_url: Some(String::from_str(server_url)),
            formation_id: Some(String::from_str(formation_id)),
            base_url: None,
            client_key: Some(String::from_str(client_key)),
            admin_key: Some(String::from_str(admin_key)),
            timeout: 30,
            mode: String::from_str("live"),
            app: None,
        }
    }

    /// A configuration that reaches the formation directly at `base_url`, live, with a
    /// 30 second timeout.
    pub fn with_base_url(base_url: &str, client_key: &str, admin_key: &str) -> (c: Self)
        ensures
            c.server_url is None,
            c.formation_id is None,
            opt_view(c.base_url) == Some(base_url@),
            opt_view(c.client_key) == Some(client_key@),
            opt_view(c.admin_key) == Some(admin_key@),
            c.timeout == 30,
            c.mode@ == "live"@,
            c.app is None,
    {
        FormationConfig {
            server_url: None,
            formation_id: None,
            base_url: Some(String::from_str(base_url)),
            client_key: Some(String::from_str(client_key)),
            admin_key: Some(String::from_str(admin_key)),
            timeout: 30,
            mode: String::from_str("live"),
            app: None,
        }
    }
}

/// The base URL of a formation's API: the given base URL without trailing slashes, or
/// the server URL (without trailing slashes), `api` (`draft` in draft mode), the
/// formation id and `v1`; an error when neither is configured.
pub open spec fn spec_base_url(
    base_url: Option<Seq<char>>,
    server_url: Option<Seq<char>>,
    formation_id: Option<Seq<char>>,
    mode: Seq<char>,
) -> Result<Seq<char>, ErrorView> {
    match base_url {
        Some(b) => Ok(trim_end_char(b, '/')),
        None => match (server_url, formation_id) {
            (Some(s), Some(f)) => Ok(
                trim_end_char(s, '/') + "/"@ + (if mode == "draft"@ {
                    "draft"@
                } else {
                    "api"@
                }) + "/"@ + f + "/v1"@,
            ),
            _ => Err(ErrorView::Connection("Must provide base_url or server_url+formation_id"@)),
        },
    }
}

/// The base URL that a configuration gives.
pub fn resolve_base_url(config: &FormationConfig) -> (r: Result<String, MuxiError>)
    ensures
        match r {
            Ok(u) => spec_base_url(
                opt_view(config.base_url),
                opt_view(config.server_url),
                opt_view(config.formation_id),
                config.mode@,
            ) == Ok::<Seq<char>, ErrorView>(u@),
            Err(e) => spec_base_url(
                opt_view(config.base_url),
                opt_view(config.server_url),
                opt_view(config.formation_id),
                config.mode@,
            ) == Err::<Seq<char>, ErrorView>(e@),
        },
{
    match &config.base_url {
        Some(b) => Ok(trim_end_matches_char(b.as_str(), '/')),
        None => match (&config.server_url, &config.formation_id) {
            (Some(server), Some(formation)) => {
                let mut u = trim_end_matches_char(server.as_str(), '/');
                u.append("/");
                if str_eq(config.mode.as_str(), "draft") {
                    u.append("draft");
                } else {
                    u.append("api");
                }
                u.append("/");
                u.append(formation.as_str());
                u.append("/v1");
                Ok(u)
            },
            _ => Err(
                MuxiError::Connection(
                    String::from_str("Must provide base_url or server_url+formation_id"),
                ),
            ),
        },
    }
}

/// The URL of a path under a base URL: the path with a leading slash, then a query
/// string when there are parameters.
pub open spec fn spec_build_url(
    base_url: Seq<char>,
    path: Seq<char>,
    params: Option<Seq<(Seq<char>, Seq<char>)>>,
) -> Seq<char> {
    let full = if path.len() > 0 && path[0] == '/' {
        path
    } else {
        "/"@ + path
    };
    let url = base_url + full;
    match params {
        Some(p) => if p.len() > 0 {
            url + "?"@ + spec_query(p)
        } else {
            url
        },
        None => url,
    }
}

/// The views of optional parameters.
pub open spec fn opt_params_view(p: Option<Vec<(&str, String)>>) -> Option<Seq<(Seq<char>, Seq<char>)>> {
    match p {
        Some(v) => Some(params_view(v@)),
        None => None,
    }
}

/// The headers of a request to a formation: the common ones, the application name when
/// configured, the admin key (admin endpoints) or the client key (others) when
/// configured, the user id when given, and `Content-Type` when it has a body.
pub open spec fn spec_formation_headers(
    client_key: Option<Seq<char>>,
    admin_key: Option<Seq<char>>,
    app: Option<Seq<char>>,
    use_admin: bool,
    user_id: Option<Seq<char>>,
    has_body: bool,
    idempotency_key: Seq<char>,
    os: Seq<char>,
    arch: Seq<char>,
) -> Seq<(Seq<char>, Seq<char>)> {
    base_headers(idempotency_key, os, arch) + opt_header("X-Muxi-App"@, app) + (if use_admin {
        opt_header("X-MUXI-ADMIN-KEY"@, admin_key)
    } else {
        opt_header("X-MUXI-CLIENT-KEY"@, client_key)
    }) + opt_header("X-Muxi-User-ID"@, user_id) + (if has_body {
        seq![("Content-Type"@, "application/json"@)]
    } else {
        Seq::empty()
    })
}

/// What the headers of a request to a formation carry, whatever else they hold: the SDK
/// and platform headers and the idempotency key; the user id whenever one is given, on
/// admin and client-key endpoints alike; the admin key on admin endpoints and the client
/// key on the others, when configured; and the JSON content type when there is a body.
pub proof fn lemma_formation_headers_carry(
    client_key: Option<Seq<char>>,
    admin_key: Option<Seq<char>>,
    app: Option<Seq<char>>,
    use_admin: bool,
    user_id: Option<Seq<char>>,
    has_body: bool,
    idempotency_key: Seq<char>,
    os: Seq<char>,
    arch: Seq<char>,
)
    ensures
        ({
            let h = spec_formation_headers(
                client_key,
                admin_key,
                app,
                use_admin,
                user_id,
                has_body,
                idempotency_key,
                os,
                arch,
            );
            &&& h.contains(("X-Muxi-SDK"@, sdk_value()))
            &&& h.contains(("X-Muxi-Client"@, os + "/"@ + arch))
            &&& h.contains(("X-Muxi-Idempotency-Key"@, idempotency_key))
            &&& (user_id is Some ==> h.contains(("X-Muxi-User-ID"@, user_id.unwrap())))
            &&& (use_admin && admin_key is Some ==> h.contains(
                ("X-MUXI-ADMIN-KEY"@, admin_key.unwrap()),
            ))
            &&& (!use_admin && client_key is Some ==> h.contains(
                ("X-MUXI-CLIENT-KEY"@, client_key.unwrap()),
            ))
            &&& (app is Some ==> h.contains(("X-Muxi-App"@, app.unwrap())))
            &&& (has_body ==> h.contains(("Content-Type"@, "application/json"@)))
        }),
{
    let b = base_headers(idempotency_key, os, arch);
    let a = opt_header("X-Muxi-App"@, app);
    let k = if use_admin {
        opt_header("X-MUXI-ADMIN-KEY"@, admin_key)
    } else {
        opt_header("X-MUXI-CLIENT-KEY"@, client_key)
    };
    let u = opt_header("X-Muxi-User-ID"@, user_id);
    let c = if has_body {
        seq![("Content-Type"@, "application/json"@)]
    } else {
        Seq::<(Seq<char>, Seq<char>)>::empty()
    };
    let h = b + a + k + u + c;
    assert(h == spec_formation_headers(
        client_key,
        admin_key,
        app,
        use_admin,
        user_id,
        has_body,
        idempotency_key,
        os,
        arch,
    ));
    assert(h[0] == b[0]);
    assert(h[1] == b[1]);
    assert(h[2] == b[2]);
    if app is Some {
        assert(h[b.len() as int] == a[0]);
    }
    if k.len() > 0 {
        assert(h[(b.len() + a.len()) as int] == k[0]);
    }
    if user_id is Some {
        assert(h[(b.len() + a.len() + k.len()) as int] == u[0]);
    }
    if has_body {
        assert(h[(b.len() + a.len() + k.len() + u.len()) as int] == c[0]);
    }
}

/// A request to send: method, URL and headers.
pub struct PreparedRequest {
    pub method: HttpMethod,
    pub url: String,
    pub headers: Vec<(String, String)>,
}

/// A client of a formation's runtime API.
#[derive(Clone)]
pub struct FormationClient {
    base_url: String,
    client_key: Option<String>,
    admin_key: Option<String>,
    app: Option<String>,
    client: HttpClient,
}

/// Appends a header when the value is present.
fn push_opt_header(h: &mut Vec<(String, String)>, name: &str, value: &Option<String>)
    ensures
        headers_view(final(h)@) == headers_view(old(h)@) + opt_header(name@, opt_view(*value)),
{
    match value {
        Some(v) => push_header(h, name, v.as_str()),
        None => {
            assert(headers_view(h@) + Seq::<(Seq<char>, Seq<char>)>::empty() == headers_view(h@));
        },
    }
}

impl FormationClient {
    /// The base URL of the formation's API.
    pub closed spec fn spec_base_url(&self) -> Seq<char> {
        self.base_url@
    }

    /// The configured client key.
    pub closed spec fn spec_client_key(&self) -> Option<Seq<char>> {
        opt_view(self.client_key)
    }

    /// The configured admin key.
    pub closed spec fn spec_admin_key(&self) -> Option<Seq<char>> {
        opt_view(self.admin_key)
    }

    /// The configured application name.
    pub closed spec fn spec_app(&self) -> Option<Seq<char>> {
        opt_view(self.app)
    }

    /// A client for the configuration: the base URL it gives, its keys and application
    /// name, and an HTTP client that times out after the configured number of seconds; a
    /// `Request` error when that cannot be built.
    pub fn new(config: FormationConfig) -> (r: Result<Self, MuxiError>)
        ensures
            ({
                let base = spec_base_url(
                    opt_view(config.base_url),
                    opt_view(config.server_url),
                    opt_view(config.formation_id),
                    config.mode@,
                );
                match r {
                    Ok(c) => base == Ok::<Seq<char>, ErrorView>(c.spec_base_url())
                        && c.spec_client_key() == opt_view(config.client_key)
                        && c.spec_admin_key() == opt_view(config.admin_key) && c.spec_app()
                        == opt_view(config.app) && c.spec_timeout() == config.timeout,
                    Err(e) => match base {
                        Err(b) => e@ == b,
                        Ok(_) => e@ == ErrorView::Request,
                    },
                }
            }),
    {
        let base_url = match resolve_base_url(&config) {
            Ok(u) => u,
            Err(e) => return Err(e),
        };
        let client = match build_http_client(config.timeout) {
            Ok(c) => c,
            Err(e) => return Err(MuxiError::Request(e)),
        };
        Ok(FormationClient {
            base_url,
            client_key: config.client_key,
            admin_key: config.admin_key,
            app: config.app,
            client,
        })
    }

    /// The HTTP client that sends the requests: the one the client holds.
    pub fn http_client(&self) -> (c: &reqwest::Client)
        ensures
            *c == self.spec_http_client(),
    {
        self.client.client()
    }

    /// The HTTP client the client holds, built when the client was made.
    pub closed spec fn spec_http_client(&self) -> reqwest::Client {
        self.client.spec_client()
    }

    /// The request timeout, in seconds, of the HTTP client the client holds.
    pub closed spec fn spec_timeout(&self) -> u64 {
        self.client.spec_timeout()
    }

    /// The request timeout, in seconds, of the HTTP client the client holds.
    pub fn timeout_secs(&self) -> (t: u64)
        ensures
            t == self.spec_timeout(),
    {
        self.client.timeout_secs()
    }

    /// The URL of a path with optional query parameters.
    pub fn build_url(&self, path: &str, params: Option<Vec<(&str, String)>>) -> (r: String)
        ensures
            r@ == spec_build_url(self.spec_base_url(), path@, opt_params_view(params)),
    {
        let mut url = self.base_url.clone();
        let pv = chars_of(path);
        if !(pv.len() > 0 && pv[0] == '/') {
            url.append("/");
        }
        url.append(path);
        match &params {
            Some(p) => {
                if p.len() > 0 {
                    url.append("?");
                    let q = query_string(p);
                    url.append(q.as_str());
                }
            },
            None => {},
        }
        url
    }

    /// The headers of a request with a given idempotency key, from a platform (operating
    /// system and CPU architecture).
    pub fn headers_with_key(
        &self,
        use_admin: bool,
        user_id: Option<&str>,
        has_body: bool,
        idempotency_key: &str,
        os: &str,
        arch: &str,
    ) -> (r: Vec<(String, String)>)
        ensures
            headers_view(r@) == spec_formation_headers(
                self.spec_client_key(),
                self.spec_admin_key(),
                self.spec_app(),
                use_admin,
                match user_id {
                    Some(u) => Some(u@),
                    None => None,
                },
                has_body,
                idempotency_key@,
                os@,
                arch@,
            ),
            user_id is Some ==> headers_view(r@).contains(("X-Muxi-User-ID"@, user_id.unwrap()@)),
            use_admin && self.spec_admin_key() is Some ==> headers_view(r@).contains(
                ("X-MUXI-ADMIN-KEY"@, self.spec_admin_key().unwrap()),
            ),
            !use_admin && self.spec_client_key() is Some ==> headers_view(r@).contains(
                ("X-MUXI-CLIENT-KEY"@, self.spec_client_key().unwrap()),
            ),
            has_body ==> headers_view(r@).contains(("Content-Type"@, "application/json"@)),
            headers_view(r@).contains(("X-Muxi-Client"@, os@ + "/"@ + arch@)),
            headers_view(r@).contains(("X-Muxi-Idempotency-Key"@, idempotency_key@)),
    {
        proof {
            lemma_formation_headers_carry(
                self.spec_client_key(),
                self.spec_admin_key(),
                self.spec_app(),
                use_admin,
                match user_id {
                    Some(u) => Some(u@),
                    None => None,
                },
                has_body,
                idempotency_key@,
                os@,
                arch@,
            );
        }
        let mut h = base_request_headers(idempotency_key, os, arch);
        push_opt_header(&mut h, "X-Muxi-App", &self.app);
        if use_admin {
            push_opt_header(&mut h, "X-MUXI-ADMIN-KEY", &self.admin_key);
        } else {
            push_opt_header(&mut h, "X-MUXI-CLIENT-KEY", &self.client_key);
        }
        let ghost before = headers_view(h@);
        match user_id {
            Some(u) => push_header(&mut h, "X-Muxi-User-ID", u),
            None => {},
        }
        assert(headers_view(h@) == before + opt_header(
            "X-Muxi-User-ID"@,
            match user_id {
                Some(u) => Some(u@),
                None => None,
            },
        ));
        let ghost before2 = headers_view(h@);
        if has_body {
            push_header(&mut h, "Content-Type", "application/json");
        }
        assert(headers_view(h@) == before2 + (if has_body {
            seq![("Content-Type"@, "application/json"@)]
        } else {
            Seq::<(Seq<char>, Seq<char>)>::empty()
        }));
        h
    }

    /// The headers of a request from a platform, with a fresh idempotency key.
    pub fn request_headers(
        &self,
        use_admin: bool,
        user_id: Option<&str>,
        has_body: bool,
        os: &str,
        arch: &str,
    ) -> (r: Vec<(String, String)>)
        ensures
            exists|key: Seq<char>|
                is_uuid_v4_text(key) && headers_view(r@) == spec_formation_headers(
                    self.spec_client_key(),
                    self.spec_admin_key(),
                    self.spec_app(),
                    use_admin,
                    match user_id {
                        Some(u) => Some(u@),
                        None => None,
                    },
                    has_body,
                    key,
                    os@,
                    arch@,
                ),
            user_id is Some ==> headers_view(r@).contains(("X-Muxi-User-ID"@, user_id.unwrap()@)),
            use_admin && self.spec_admin_key() is Some ==> headers_view(r@).contains(
                ("X-MUXI-ADMIN-KEY"@, self.spec_admin_key().unwrap()),
            ),
            !use_admin && self.spec_client_key() is Some ==> headers_view(r@).contains(
                ("X-MUXI-CLIENT-KEY"@, self.spec_client_key().unwrap()),
            ),
            has_body ==> headers_view(r@).contains(("Content-Type"@, "application/json"@)),
    {
        let key = new_uuid_v4();
        self.headers_with_key(use_admin, user_id, has_body, key.as_str(), os, arch)
    }

    /// The method, URL and headers of a request; an error for an unknown method.
    pub fn prepare_request(
        &self,
        method: &str,
        path: &str,
        params: Option<Vec<(&str, String)>>,
        has_body: bool,
        use_admin: bool,
        user_id: Option<&str>,
        os: &str,
        arch: &str,
    ) -> (r: Result<PreparedRequest, MuxiError>)
        ensures
            match r {
                Ok(p) => spec_method(method@) == Some(p.method) && p.url@ == spec_build_url(
                    self.spec_base_url(),
                    path@,
                    opt_params_view(params),
                ) && exists|key: Seq<char>|
                    is_uuid_v4_text(key) && headers_view(p.headers@) == spec_formation_headers(
                        self.spec_client_key(),
                        self.spec_admin_key(),
                        self.spec_app(),
                        use_admin,
                        match user_id {
                            Some(u) => Some(u@),
                            None => None,
                        },
                        has_body,
                        key,
                        os@,
                        arch@,
                    ),
                Err(e) => spec_method(method@) is None && e@ == ErrorView::Connection(
                    "Unknown method: "@ + method@,
                ),
            },
    {
        let url = self.build_url(path, params);
        let m = match parse_method(method) {
            Ok(m) => m,
            Err(e) => return Err(e),
        };
        let headers = self.request_headers(use_admin, user_id, has_body, os, arch);
        Ok(PreparedRequest { method: m, url, headers })
    }
}

impl FormationClient {
    /// What a response with `status`, `Retry-After` header and `body` gives: the error for
    /// a status of 400 or above; otherwise the body's JSON value with its envelope removed
    /// (an empty object for an empty body), or a `Json` error for a body that is not JSON.
    pub fn handle_response(status: u16, retry_after: Option<&str>, body: String) -> (r: Result<
        Json,
        MuxiError,
    >)
        ensures
            status >= 400 ==> (r matches Err(e) && e@ == spec_response_error(
                status,
                opt_str_view(retry_after),
                body@,
            )),
            status < 400 && body@.len() == 0 ==> (r matches Ok(j) && model(j) == JsonModel::Object(
                Seq::empty(),
            )),
            status < 400 && body@.len() > 0 ==> match spec_json_parse(body@) {
                Some(v) => r matches Ok(j) && model(j) == spec_unwrap_envelope(v),
                None => r matches Err(e) && e@ == ErrorView::Json,
            },
    {
        match check_response(status, retry_after, body) {
            Err(e) => Err(e),
            Ok(None) => parse_success_body(None),
            Ok(Some(text)) => match parse_success_body(Some(text)) {
                Ok(v) => Ok(unwrap_envelope(v)),
                Err(e) => Err(e),
            },
        }
    }
}

/// The query parameters of a per-user listing: the user id, then the limit when given.
pub fn user_params(user_id: &str, limit: Option<u32>) -> (r: Vec<(&'static str, String)>)
    ensures
        params_view(r@) == seq![("user_id"@, user_id@)] + match limit {
            Some(l) => seq![("limit"@, decimal(l as nat))],
            None => Seq::<(Seq<char>, Seq<char>)>::empty(),
        },
{
    let mut r: Vec<(&'static str, String)> = Vec::new();
    r.push(("user_id", String::from_str(user_id)));
    match limit {
        Some(l) => {
            r.push(("limit", u64_to_string(l as u64)));
        },
        None => {},
    }
    assert(params_view(r@) =~= seq![("user_id"@, user_id@)] + match limit {
        Some(l) => seq![("limit"@, decimal(l as nat))],
        None => Seq::<(Seq<char>, Seq<char>)>::empty(),
    });
    r
}

} // verus!
