//! How HTTP responses turn into results: the error that a failed status stands for,
//! and the body that a successful one carries.

use vstd::prelude::*;

use crate::errors::{opt_text, opt_view, spec_from_response, ErrorView, MuxiError};
use crate::json::{
    as_str, get_member, get_str, json_parse, json_top_strings, member, members_view, model,
    model_members, or_member, spec_json_parse, spec_json_top_strings, Json, JsonModel,
};
use crate::text::{chars_of, parse_u32, parse_unsigned};

verus! {

/// The value of a `Retry-After` header: its text read as a `u32`, if it is one.
pub open spec fn spec_retry_after(header: Option<Seq<char>>) -> Option<u32> {
    match header {
        Some(h) => match parse_unsigned(h, u32::MAX as int) {
            Some(v) => Some(v as u32),
            None => None,
        },
        None => None,
    }
}

/// The value of a `Retry-After` header.
pub fn retry_after_value(header: Option<&str>) -> (r: Option<u32>)
    ensures
        r == spec_retry_after(match header {
            Some(h) => Some(h@),
            None => None,
        }),
{
    match header {
        Some(h) => {
            let v = chars_of(h);
            parse_u32(v.as_slice())
        },
        None => None,
    }
}

/// The optional view of an optional string slice.
pub open spec fn opt_str_view(s: Option<&str>) -> Option<Seq<char>> {
    match s {
        Some(x) => Some(x@),
        None => None,
    }
}

/// The views of what `json_top_strings` read: the members of the top-level object, or
/// `None` for a text that is not JSON.
pub open spec fn opt_members_view(parsed: Option<Vec<(String, Option<String>)>>) -> Option<
    Seq<(Seq<char>, Option<Seq<char>>)>,
> {
    match parsed {
        Some(v) => Some(members_view(v@)),
        None => None,
    }
}

/// The code and message of a failed response, from what was read of its body: `code`
/// (or, when absent, `error`) and `message` of the top-level JSON object, if they are
/// strings; no code and `Unknown error` for a body that is not JSON.
pub open spec fn members_code_message(parsed: Option<Seq<(Seq<char>, Option<Seq<char>>)>>) -> (
    Option<Seq<char>>,
    Seq<char>,
) {
    match parsed {
        Some(m) => (
            as_str(or_member(member(m, "code"@), member(m, "error"@))),
            match as_str(member(m, "message"@)) {
                Some(s) => s,
                None => "Unknown error"@,
            },
        ),
        None => (None, "Unknown error"@),
    }
}

/// The code and message of a failed response's body.
pub open spec fn spec_body_code_message(body: Seq<char>) -> (Option<Seq<char>>, Seq<char>) {
    members_code_message(spec_json_top_strings(body))
}

/// The error that a failed response (status 400 or above) stands for, from what was
/// read of its body.
pub open spec fn spec_error_of_members(
    status: u16,
    retry_after: Option<Seq<char>>,
    parsed: Option<Seq<(Seq<char>, Option<Seq<char>>)>>,
) -> ErrorView {
    let (code, message) = members_code_message(parsed);
    spec_from_response(status, opt_text(code), message, spec_retry_after(retry_after))
}

/// The error that a failed response (status 400 or above) stands for.
pub open spec fn spec_response_error(status: u16, retry_after: Option<Seq<char>>, body: Seq<char>) -> ErrorView {
    spec_error_of_members(status, retry_after, spec_json_top_strings(body))
}

/// The error that a failed response stands for, from the members of its JSON body
/// (`None` when the body is not JSON).
pub fn error_from_members(
    status: u16,
    retry_after: Option<&str>,
    parsed: Option<Vec<(String, Option<String>)>>,
) -> (e: MuxiError)
    ensures
        e@ == spec_error_of_members(status, opt_str_view(retry_after), opt_members_view(parsed)),
{
    let retry = retry_after_value(retry_after);
    match parsed {
        Some(m) => {
            let code = match get_member(&m, "code") {
                Some(Some(c)) => Some(c),
                Some(None) => None,
                None => get_str(&m, "error"),
            };
            let message = match get_str(&m, "message") {
                Some(s) => s,
                None => String::from_str("Unknown error"),
            };
            proof {
                assert(opt_view(code) == as_str(
                    or_member(member(members_view(m@), "code"@), member(members_view(m@), "error"@)),
                ));
            }
            MuxiError::from_response(status, code, message, retry)
        },
        None => MuxiError::from_response(status, None, String::from_str("Unknown error"), retry),
    }
}

/// The error that a failed response stands for.
pub fn response_error(status: u16, retry_after: Option<&str>, body: &str) -> (e: MuxiError)
    ensures
        e@ == spec_response_error(status, opt_str_view(retry_after), body@),
{
    error_from_members(status, retry_after, json_top_strings(body))
}

/// What a response with `status` and `body` gives: the error for a status of 400 or
/// above; otherwise `None` for an empty body (an empty JSON object) and the body to
/// read as JSON for any other.
pub fn check_response(status: u16, retry_after: Option<&str>, body: String) -> (r: Result<
    Option<String>,
    MuxiError,
>)
    ensures
        status >= 400 ==> (r matches Err(e) && e@ == spec_response_error(
            status,
            opt_str_view(retry_after),
            body@,
        )),
        status < 400 ==> (r matches Ok(b) && opt_view(b) == (if body@.len() == 0 {
            None
        } else {
            Some(body@)
        })),
{
    if status >= 400 {
        return Err(response_error(status, retry_after, body.as_str()));
    }
    if body.as_str().is_empty() {
        Ok(None)
    } else {
        Ok(Some(body))
    }
}

/// Whether a streaming request failed: a client (4xx) or server (5xx) error status.
pub open spec fn spec_is_error_status(status: u16) -> bool {
    400 <= status <= 599
}

/// `StatusCode::is_client_error() || StatusCode::is_server_error()`.
pub fn is_error_status(status: u16) -> (r: bool)
    ensures
        r == spec_is_error_status(status),
{
    400 <= status && status <= 599
}

/// The code and message of a failed stream, from what was read of its body: `type`,
/// `code` or `error` (the first present) and `error` or `message` (the first present), if
/// they are strings; a body that is not JSON is the message itself.
pub open spec fn stream_members_code_message(
    parsed: Option<Seq<(Seq<char>, Option<Seq<char>>)>>,
    body: Seq<char>,
) -> (Option<Seq<char>>, Seq<char>) {
    match parsed {
        Some(m) => (
            as_str(or_member(or_member(member(m, "type"@), member(m, "code"@)), member(m, "error"@))),
            match as_str(or_member(member(m, "error"@), member(m, "message"@))) {
                Some(s) => s,
                None => "Unknown error"@,
            },
        ),
        None => (None, if body.len() == 0 {
            "Unknown error"@
        } else {
            body
        }),
    }
}

/// The code and message of a failed stream's body.
pub open spec fn spec_stream_code_message(body: Seq<char>) -> (Option<Seq<char>>, Seq<char>) {
    stream_members_code_message(spec_json_top_strings(body), body)
}

/// The error that a failed streaming response stands for, from what was read of its
/// body.
pub open spec fn spec_stream_error_of_members(
    status: u16,
    retry_after: Option<Seq<char>>,
    parsed: Option<Seq<(Seq<char>, Option<Seq<char>>)>>,
    body: Seq<char>,
) -> ErrorView {
    let (code, message) = stream_members_code_message(parsed, body);
    spec_from_response(status, opt_text(code), message, spec_retry_after(retry_after))
}

/// The error that a failed streaming response stands for.
pub open spec fn spec_stream_response_error(status: u16, retry_after: Option<Seq<char>>, body: Seq<char>) -> ErrorView {
    spec_stream_error_of_members(status, retry_after, spec_json_top_strings(body), body)
}

/// The first member present among `keys`, as `or_member` chains them.
fn first_member(m: &Vec<(String, Option<String>)>, a: &str, b: &str) -> (r: Option<Option<String>>)
    ensures
        match r {
            Some(x) => or_member(member(members_view(m@), a@), member(members_view(m@), b@)) == Some(
                opt_view(x),
            ),
            None => or_member(member(members_view(m@), a@), member(members_view(m@), b@)) is None,
        },
{
    match get_member(m, a) {
        Some(x) => Some(x),
        None => get_member(m, b),
    }
}

/// The code and message that the stream rules read from a parsed body.
fn stream_code_message(m: &Vec<(String, Option<String>)>) -> (r: (Option<String>, Option<String>))
    ensures
        opt_view(r.0) == as_str(
            or_member(
                or_member(member(members_view(m@), "type"@), member(members_view(m@), "code"@)),
                member(members_view(m@), "error"@),
            ),
        ),
        opt_view(r.1) == as_str(
            or_member(member(members_view(m@), "error"@), member(members_view(m@), "message"@)),
        ),
{
    let code = match first_member(m, "type", "code") {
        Some(Some(c)) => Some(c),
        Some(None) => None,
        None => get_str(m, "error"),
    };
    let message = match first_member(m, "error", "message") {
        Some(Some(s)) => Some(s),
        _ => None,
    };
    (code, message)
}

/// The error that a failed streaming response stands for, from the members of its JSON
/// body (`None` when the body is not JSON) and the body itself.
pub fn stream_error_from_members(
    status: u16,
    retry_after: Option<&str>,
    parsed: Option<Vec<(String, Option<String>)>>,
    body: &str,
) -> (e: MuxiError)
    ensures
        e@ == spec_stream_error_of_members(
            status,
            opt_str_view(retry_after),
            opt_members_view(parsed),
            body@,
        ),
{
    let retry = retry_after_value(retry_after);
    match parsed {
        Some(m) => {
            let (code, message) = stream_code_message(&m);
            let message = match message {
                Some(s) => s,
                None => String::from_str("Unknown error"),
            };
            MuxiError::from_response(status, code, message, retry)
        },
        None => {
            let message = if body.is_empty() {
                String::from_str("Unknown error")
            } else {
                String::from_str(body)
            };
            MuxiError::from_response(status, None, message, retry)
        },
    }
}

/// The error that a failed streaming response stands for.
pub fn stream_response_error(status: u16, retry_after: Option<&str>, body: &str) -> (e: MuxiError)
    ensures
        e@ == spec_stream_response_error(status, opt_str_view(retry_after), body@),
{
    stream_error_from_members(status, retry_after, json_top_strings(body), body)
}

/// The error that an `error` event of a stream stands for, from what was read of its
/// data: code from `type`, `code` or `error`, message from `error` or `message`, status 0.
pub open spec fn route_error_of_members(
    parsed: Option<Seq<(Seq<char>, Option<Seq<char>>)>>,
    data: Seq<char>,
) -> ErrorView {
    let fallback = if data.len() == 0 {
        "stream error"@
    } else {
        data
    };
    match parsed {
        Some(m) => ErrorView::Unknown {
            code: match as_str(
                or_member(or_member(member(m, "type"@), member(m, "code"@)), member(m, "error"@)),
            ) {
                Some(c) => c,
                None => "STREAM_ERROR"@,
            },
            message: match as_str(or_member(member(m, "error"@), member(m, "message"@))) {
                Some(s) => s,
                None => fallback,
            },
            status: 0,
        },
        None => ErrorView::Unknown { code: "STREAM_ERROR"@, message: fallback, status: 0 },
    }
}

/// The error that an `error` event of a stream stands for.
pub open spec fn spec_route_error(data: Seq<char>) -> ErrorView {
    route_error_of_members(spec_json_top_strings(data), data)
}

/// The error that an `error` event stands for, from the members of its JSON data
/// (`None` when the data is not JSON) and the data itself.
pub fn route_error_from_members(parsed: Option<Vec<(String, Option<String>)>>, data: &str) -> (e:
    MuxiError)
    ensures
        e@ == route_error_of_members(opt_members_view(parsed), data@),
{
    let fallback = if data.is_empty() {
        String::from_str("stream error")
    } else {
        String::from_str(data)
    };
    match parsed {
        Some(m) => {
            let (code, message) = stream_code_message(&m);
            let code = match code {
                Some(c) => c,
                None => String::from_str("STREAM_ERROR"),
            };
            let message = match message {
                Some(s) => s,
                None => fallback,
            };
            MuxiError::Unknown { code, message, status: 0 }
        },
        None => MuxiError::Unknown { code: String::from_str("STREAM_ERROR"), message: fallback, status: 0 },
    }
}

/// The error that an `error` event of a stream stands for.
pub fn parse_route_error(data: &str) -> (e: MuxiError)
    ensures
        e@ == spec_route_error(data@),
{
    route_error_from_members(json_top_strings(data), data)
}

/// What the body of a successful response holds: an empty JSON object for an empty
/// body, the parsed JSON value otherwise; `None` when the body is not JSON.
pub open spec fn spec_success_body(body: Seq<char>) -> Option<JsonModel> {
    if body.len() == 0 {
        Some(JsonModel::Object(Seq::empty()))
    } else {
        spec_json_parse(body)
    }
}

/// The value a successful response gives, from the body that `check_response` handed
/// back (`None` for an empty body): an empty object, or the parsed JSON; a `Json` error
/// for a body that is not JSON.
pub fn parse_success_body(body: Option<String>) -> (r: Result<Json, MuxiError>)
    ensures
        body is None ==> (r matches Ok(j) && model(j) == JsonModel::Object(Seq::empty())),
        body matches Some(t) ==> match spec_json_parse(t@) {
            Some(v) => r matches Ok(j) && model(j) == v,
            None => r matches Err(e) && e@ == ErrorView::Json,
        },
{
    match body {
        None => {
            let empty: Vec<(String, Json)> = Vec::new();
            assert(model_members(empty@) =~= Seq::<(Seq<char>, JsonModel)>::empty());
            Ok(Json::Object(empty))
        },
        Some(text) => match json_parse(text.as_str()) {
            Ok(j) => Ok(j),
            Err(e) => Err(MuxiError::Json(e)),
        },
    }
}

} // verus!
