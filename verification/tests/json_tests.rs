use muxi_rust::json::{unwrap_envelope, with_stream_flag, Json};

fn s(x: &str) -> String {
    x.to_string()
}

fn show(j: &Json) -> String {
    format!("{:?}", j)
}

#[test]
fn envelope_data_object_gains_request_id() {
    let body = Json::Object(vec![
        (s("request"), Json::Object(vec![(s("id"), Json::Str(s("req-1")))])),
        (s("data"), Json::Object(vec![(s("answer"), Json::Number(s("42")))])),
    ]);
    let expected = Json::Object(vec![
        (s("answer"), Json::Number(s("42"))),
        (s("request_id"), Json::Str(s("req-1"))),
    ]);
    assert_eq!(show(&unwrap_envelope(body)), show(&expected));
}

#[test]
fn envelope_keeps_existing_request_id_and_non_object_data() {
    let body = Json::Object(vec![
        (s("data"), Json::Object(vec![(s("request_id"), Json::Str(s("mine")))])),
        (s("request"), Json::Object(vec![(s("id"), Json::Str(s("theirs")))])),
    ]);
    assert_eq!(
        show(&unwrap_envelope(body)),
        show(&Json::Object(vec![(s("request_id"), Json::Str(s("mine")))]))
    );
    let body = Json::Object(vec![(s("data"), Json::Array(vec![Json::Bool(true), Json::Null]))]);
    assert_eq!(show(&unwrap_envelope(body)), show(&Json::Array(vec![Json::Bool(true), Json::Null])));
    let body = Json::Object(vec![(s("other"), Json::Null)]);
    assert_eq!(show(&unwrap_envelope(body)), show(&Json::Object(vec![(s("other"), Json::Null)])));
    assert_eq!(show(&unwrap_envelope(Json::Str(s("x")))), show(&Json::Str(s("x"))));
}

#[test]
fn stream_flag_is_set_on_objects_only() {
    let p = Json::Object(vec![(s("message"), Json::Str(s("hi")))]);
    assert_eq!(
        show(&with_stream_flag(p)),
        show(&Json::Object(vec![(s("message"), Json::Str(s("hi"))), (s("stream"), Json::Bool(true))]))
    );
    let p = Json::Object(vec![(s("stream"), Json::Bool(false)), (s("m"), Json::Null)]);
    assert_eq!(
        show(&with_stream_flag(p)),
        show(&Json::Object(vec![(s("stream"), Json::Bool(true)), (s("m"), Json::Null)]))
    );
    assert_eq!(show(&with_stream_flag(Json::Null)), show(&Json::Null));
}

#[test]
fn deep_copy_is_equal() {
    let v = Json::Array(vec![Json::Object(vec![(s("a"), Json::Array(vec![Json::Number(s("1.5"))]))])]);
    assert_eq!(show(&v.deep_copy()), show(&v));
}
