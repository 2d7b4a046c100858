use muxi_rust::errors::MuxiError;
use muxi_rust::formation_client::FormationClient;
use muxi_rust::json::Json;
use muxi_rust::response::{
    check_response, error_from_members, is_error_status, parse_success_body, response_error, retry_after_value,
    route_error_from_members, stream_error_from_members, stream_response_error,
};
use muxi_rust::server_client::ServerClient;

fn parts(e: &MuxiError) -> (String, String, String, u16) {
    match e {
        MuxiError::Authentication { code, message, status } => ("auth".into(), code.clone(), message.clone(), *status),
        MuxiError::Authorization { code, message, status } => ("authz".into(), code.clone(), message.clone(), *status),
        MuxiError::NotFound { code, message, status } => ("notfound".into(), code.clone(), message.clone(), *status),
        MuxiError::Conflict { code, message, status } => ("conflict".into(), code.clone(), message.clone(), *status),
        MuxiError::Validation { code, message, status } => ("validation".into(), code.clone(), message.clone(), *status),
        MuxiError::RateLimit { message, status, .. } => ("ratelimit".into(), String::new(), message.clone(), *status),
        MuxiError::Server { code, message, status } => ("server".into(), code.clone(), message.clone(), *status),
        MuxiError::Unknown { code, message, status } => ("unknown".into(), code.clone(), message.clone(), *status),
        other => panic!("unexpected: {other:?}"),
    }
}

#[test]
fn status_classes_and_default_codes() {
    let cases = [
        (401u16, "auth", "UNAUTHORIZED"),
        (403, "authz", "FORBIDDEN"),
        (404, "notfound", "NOT_FOUND"),
        (409, "conflict", "CONFLICT"),
        (422, "validation", "VALIDATION_ERROR"),
        (500, "server", "SERVER_ERROR"),
        (503, "server", "SERVER_ERROR"),
        (504, "server", "SERVER_ERROR"),
        (505, "server", "SERVER_ERROR"),
        (599, "server", "SERVER_ERROR"),
        (600, "unknown", "ERROR"),
        (499, "unknown", "ERROR"),
        (400, "unknown", "ERROR"),
    ];
    for (status, kind, code) in cases {
        let e = MuxiError::from_response(status, None, "m".to_string(), None);
        assert_eq!(parts(&e), (kind.to_string(), code.to_string(), "m".to_string(), status));
        let e = MuxiError::from_response(status, Some(String::new()), "m".to_string(), None);
        assert_eq!(parts(&e).1, code);
        let e = MuxiError::from_response(status, Some("MINE".to_string()), "m".to_string(), None);
        assert_eq!(parts(&e).1, "MINE");
    }
}

#[test]
fn rate_limit_keeps_retry_after() {
    match MuxiError::from_response(429, Some("X".into()), "slow".into(), Some(7)) {
        MuxiError::RateLimit { message, status, retry_after } => {
            assert_eq!(message, "slow");
            assert_eq!(status, 429);
            assert_eq!(retry_after, Some(7));
        }
        other => panic!("unexpected: {other:?}"),
    }
}

#[test]
fn retry_after_header_is_read_as_u32() {
    assert_eq!(retry_after_value(Some("30")), Some(30));
    assert_eq!(retry_after_value(Some("+5")), Some(5));
    assert_eq!(retry_after_value(Some("4294967295")), Some(u32::MAX));
    assert_eq!(retry_after_value(Some("4294967296")), None);
    assert_eq!(retry_after_value(Some(" 5")), None);
    assert_eq!(retry_after_value(Some("-1")), None);
    assert_eq!(retry_after_value(Some("+")), None);
    assert_eq!(retry_after_value(Some("")), None);
    assert_eq!(retry_after_value(None), None);
}

#[test]
fn failed_response_reads_code_and_message() {
    let e = response_error(404, None, r#"{"code":"NO_SUCH","message":"gone"}"#);
    assert_eq!(parts(&e), ("notfound".into(), "NO_SUCH".into(), "gone".into(), 404));
    let e = response_error(403, None, r#"{"error":"E","message":"no"}"#);
    assert_eq!(parts(&e), ("authz".into(), "E".into(), "no".into(), 403));
    let e = response_error(403, None, r#"{"code":5,"error":"E"}"#);
    assert_eq!(parts(&e), ("authz".into(), "FORBIDDEN".into(), "Unknown error".into(), 403));
    let e = response_error(500, None, "oops");
    assert_eq!(parts(&e), ("server".into(), "SERVER_ERROR".into(), "Unknown error".into(), 500));
    match response_error(429, Some("12"), "{}") {
        MuxiError::RateLimit { retry_after, message, .. } => {
            assert_eq!(retry_after, Some(12));
            assert_eq!(message, "Unknown error");
        }
        other => panic!("unexpected: {other:?}"),
    }
}

#[test]
fn check_response_outcomes() {
    assert!(matches!(check_response(200, None, String::new()), Ok(None)));
    assert!(matches!(check_response(204, None, "{\"a\":1}".to_string()), Ok(Some(ref b)) if b == "{\"a\":1}"));
    assert!(matches!(check_response(399, None, "x".to_string()), Ok(Some(_))));
    assert!(matches!(check_response(400, None, String::new()), Err(MuxiError::Unknown { .. })));
}

#[test]
fn stream_errors_read_type_and_raw_body() {
    assert!(is_error_status(400));
    assert!(is_error_status(599));
    assert!(!is_error_status(399));
    assert!(!is_error_status(600));
    let e = stream_response_error(401, None, r#"{"type":"T","code":"C","error":"bad"}"#);
    assert_eq!(parts(&e), ("auth".into(), "T".into(), "bad".into(), 401));
    let e = stream_response_error(502, None, "upstream down");
    assert_eq!(parts(&e), ("server".into(), "SERVER_ERROR".into(), "upstream down".into(), 502));
    let e = stream_response_error(404, None, "");
    assert_eq!(parts(&e), ("notfound".into(), "NOT_FOUND".into(), "Unknown error".into(), 404));
    let e = stream_response_error(422, None, r#"{"message":"bad field"}"#);
    assert_eq!(parts(&e), ("validation".into(), "VALIDATION_ERROR".into(), "bad field".into(), 422));
}

#[test]
fn errors_from_parsed_members() {
    let members = vec![
        ("error".to_string(), Some("E".to_string())),
        ("message".to_string(), Some("no".to_string())),
    ];
    let e = error_from_members(403, None, Some(members.clone()));
    assert_eq!(parts(&e), ("authz".into(), "E".into(), "no".into(), 403));
    let e = error_from_members(503, None, None);
    assert_eq!(parts(&e), ("server".into(), "SERVER_ERROR".into(), "Unknown error".into(), 503));
    let e = stream_error_from_members(500, None, None, "raw text");
    assert_eq!(parts(&e), ("server".into(), "SERVER_ERROR".into(), "raw text".into(), 500));
    let e = stream_error_from_members(409, None, Some(members.clone()), "ignored");
    assert_eq!(parts(&e), ("conflict".into(), "E".into(), "E".into(), 409));
    let e = route_error_from_members(Some(members), "ignored");
    assert_eq!(parts(&e), ("unknown".into(), "E".into(), "E".into(), 0));
    let e = route_error_from_members(None, "");
    assert_eq!(parts(&e), ("unknown".into(), "STREAM_ERROR".into(), "stream error".into(), 0));
    let e = route_error_from_members(Some(vec![]), "data");
    assert_eq!(parts(&e), ("unknown".into(), "STREAM_ERROR".into(), "data".into(), 0));
}

fn show(j: &Json) -> String {
    format!("{:?}", j)
}

fn s(x: &str) -> String {
    x.to_string()
}

#[test]
fn success_bodies_are_parsed() {
    assert_eq!(show(&parse_success_body(None).unwrap()), show(&Json::Object(vec![])));
    assert_eq!(
        show(&parse_success_body(Some(s(r#"[1, "a", null, true, 2.5]"#))).unwrap()),
        show(&Json::Array(vec![
            Json::Number(s("1")),
            Json::Str(s("a")),
            Json::Null,
            Json::Bool(true),
            Json::Number(s("2.5")),
        ]))
    );
    assert!(matches!(parse_success_body(Some(s("not json"))), Err(MuxiError::Json(_))));
}

#[test]
fn server_responses_are_handled() {
    assert_eq!(show(&ServerClient::handle_response(200, None, String::new()).unwrap()), show(&Json::Object(vec![])));
    assert_eq!(
        show(&ServerClient::handle_response(200, None, s(r#"{"status":"ok"}"#)).unwrap()),
        show(&Json::Object(vec![(s("status"), Json::Str(s("ok")))]))
    );
    assert!(matches!(ServerClient::handle_response(201, None, s("<html>")), Err(MuxiError::Json(_))));
    let e = ServerClient::handle_response(404, None, s(r#"{"code":"NO_SUCH","message":"gone"}"#)).unwrap_err();
    assert_eq!(parts(&e), ("notfound".into(), "NO_SUCH".into(), "gone".into(), 404));
    match ServerClient::handle_response(429, Some("9"), String::new()) {
        Err(MuxiError::RateLimit { retry_after, .. }) => assert_eq!(retry_after, Some(9)),
        other => panic!("unexpected: {other:?}"),
    }
}

#[test]
fn formation_responses_are_unwrapped() {
    let body = s(r#"{"data":{"answer":42},"request":{"id":"req-1"}}"#);
    assert_eq!(
        show(&FormationClient::handle_response(200, None, body).unwrap()),
        show(&Json::Object(vec![(s("answer"), Json::Number(s("42"))), (s("request_id"), Json::Str(s("req-1")))]))
    );
    assert_eq!(
        show(&FormationClient::handle_response(200, None, String::new()).unwrap()),
        show(&Json::Object(vec![]))
    );
    assert_eq!(
        show(&FormationClient::handle_response(200, None, s(r#"{"data":[1]}"#)).unwrap()),
        show(&Json::Array(vec![Json::Number(s("1"))]))
    );
    assert!(matches!(FormationClient::handle_response(200, None, s("{")), Err(MuxiError::Json(_))));
    let e = FormationClient::handle_response(500, None, s("down")).unwrap_err();
    assert_eq!(parts(&e), ("server".into(), "SERVER_ERROR".into(), "Unknown error".into(), 500));
}
