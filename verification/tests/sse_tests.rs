use muxi_rust::errors::MuxiError;
use muxi_rust::formation_client::{parse_route_error, split_sse_field, SseEventParser};
use muxi_rust::server_client::parse_sse_events;

#[test]
fn flushes_event_only_done_frame() {
    let mut parser = SseEventParser::default();
    assert!(parser.process_line(": keepalive").unwrap().is_none());
    assert!(parser.process_line("").unwrap().is_none());
    assert!(parser.process_line("event: done").unwrap().is_none());

    let event = parser.process_line("").unwrap();
    assert_eq!(event.unwrap().event, "done");
}

#[test]
fn preserves_multiline_data() {
    let mut parser = SseEventParser::default();
    parser.process_line("event: planning").unwrap();
    parser.process_line("data: one").unwrap();
    parser.process_line("data: two").unwrap();

    let event = parser.process_line("").unwrap().unwrap();
    assert_eq!(event.event, "planning");
    assert_eq!(event.data, "one\ntwo");
}

#[test]
fn route_error_becomes_muxi_error() {
    let err = parse_route_error(r#"{"error":"boom","type":"RUNTIME_ERROR"}"#);
    match err {
        MuxiError::Unknown { code, message, status } => {
            assert_eq!(code, "RUNTIME_ERROR");
            assert_eq!(message, "boom");
            assert_eq!(status, 0);
        }
        other => panic!("unexpected error: {other:?}"),
    }
}

#[test]
fn route_error_defaults() {
    match parse_route_error("not json") {
        MuxiError::Unknown { code, message, status } => {
            assert_eq!(code, "STREAM_ERROR");
            assert_eq!(message, "not json");
            assert_eq!(status, 0);
        }
        other => panic!("unexpected error: {other:?}"),
    }
    match parse_route_error("") {
        MuxiError::Unknown { code, message, .. } => {
            assert_eq!(code, "STREAM_ERROR");
            assert_eq!(message, "stream error");
        }
        other => panic!("unexpected error: {other:?}"),
    }
    match parse_route_error(r#"{"code":"C","message":"m"}"#) {
        MuxiError::Unknown { code, message, .. } => {
            assert_eq!(code, "C");
            assert_eq!(message, "m");
        }
        other => panic!("unexpected error: {other:?}"),
    }
    match parse_route_error(r#"[1,2]"#) {
        MuxiError::Unknown { code, message, .. } => {
            assert_eq!(code, "STREAM_ERROR");
            assert_eq!(message, "[1,2]");
        }
        other => panic!("unexpected error: {other:?}"),
    }
}

#[test]
fn split_field_strips_one_space() {
    assert_eq!(split_sse_field("data:  x"), ("data".to_string(), " x".to_string()));
    assert_eq!(split_sse_field("event:done"), ("event".to_string(), "done".to_string()));
    assert_eq!(split_sse_field("retry"), ("retry".to_string(), String::new()));
    assert_eq!(split_sse_field("a: b: c"), ("a".to_string(), "b: c".to_string()));
}

#[test]
fn chunks_split_anywhere_read_the_same_events() {
    let body = "event: a\r\ndata: 1\n\n: note\ndata: 2\ndata: 3\n\nevent: b\n";
    let mut whole = SseEventParser::default();
    let mut all = whole.push_chunk(body).unwrap();
    all.extend(whole.finish().unwrap());
    for cut in 0..body.len() {
        let mut p = SseEventParser::default();
        let mut got = p.push_chunk(&body[..cut]).unwrap();
        got.extend(p.push_chunk(&body[cut..]).unwrap());
        got.extend(p.finish().unwrap());
        let a: Vec<(String, String)> = all.iter().map(|e| (e.event.clone(), e.data.clone())).collect();
        let g: Vec<(String, String)> = got.iter().map(|e| (e.event.clone(), e.data.clone())).collect();
        assert_eq!(a, g, "cut at {}", cut);
    }
    let names: Vec<String> = all.iter().map(|e| e.event.clone()).collect();
    assert_eq!(names, vec!["a".to_string(), "message".to_string(), "b".to_string()]);
    assert_eq!(all[0].data, "1");
    assert_eq!(all[1].data, "2\n3");
    assert_eq!(all[2].data, "");
}

#[test]
fn error_event_becomes_error() {
    let mut p = SseEventParser::default();
    match p.push_chunk("event: error\ndata: {\"error\":\"bad\",\"code\":\"X\"}\n\n") {
        Err(MuxiError::Unknown { code, message, status }) => {
            assert_eq!(code, "X");
            assert_eq!(message, "bad");
            assert_eq!(status, 0);
        }
        other => panic!("unexpected: {other:?}"),
    }
}

#[test]
fn finish_reads_unterminated_line() {
    let mut p = SseEventParser::default();
    assert!(p.push_chunk("data: tail\r\r").unwrap().is_empty());
    let events = p.finish().unwrap();
    assert_eq!(events.len(), 1);
    assert_eq!(events[0].event, "message");
    assert_eq!(events[0].data, "tail");
}

#[test]
fn whole_body_events_are_trimmed_and_open_event_dropped() {
    let events = parse_sse_events(": hi\r\nevent:  update \r\ndata: a \ndata:b\n\nevent: x\n\ndata: last");
    assert_eq!(events.len(), 1);
    assert_eq!(events[0].event, "update");
    assert_eq!(events[0].data, "a\nb");
}

#[test]
fn whole_body_default_event_name() {
    let events = parse_sse_events("data: 1\n\ndata: 2\n\n");
    assert_eq!(events.len(), 2);
    assert_eq!(events[0].event, "message");
    assert_eq!(events[1].data, "2");
}

#[test]
fn unicode_whitespace_is_trimmed_in_whole_bodies() {
    let events = parse_sse_events("event:\u{00A0}tick\u{3000}\ndata:\t x \u{2003}\n\n");
    assert_eq!(events.len(), 1);
    assert_eq!(events[0].event, "tick");
    assert_eq!(events[0].data, "x");
}

#[test]
fn comment_and_unknown_fields_change_nothing() {
    let mut p = SseEventParser::default();
    assert!(p.process_line(":data: no").unwrap().is_none());
    assert!(p.process_line("id: 7").unwrap().is_none());
    assert!(p.process_line("").unwrap().is_none());
    assert!(p.finish().unwrap().is_empty());
}
