use muxi_rust::errors::MuxiError;
use muxi_rust::formation_client::{user_params, FormationClient, FormationConfig};
use muxi_rust::http::{parse_method, platform_header_value, retry_delay, HttpMethod};
use muxi_rust::server_client::{ServerClient, ServerConfig};

fn assert_uuid_v4(key: &str) {
    let chars: Vec<char> = key.chars().collect();
    assert_eq!(chars.len(), 36);
    for (i, c) in chars.iter().enumerate() {
        if i == 8 || i == 13 || i == 18 || i == 23 {
            assert_eq!(*c, '-');
        } else {
            assert!(c.is_ascii_digit() || ('a'..='f').contains(c), "{key}");
        }
    }
    assert_eq!(chars[14], '4');
    assert!(matches!(chars[19], '8' | '9' | 'a' | 'b'));
}

#[test]
fn server_config_trims_trailing_slashes() {
    let c = ServerConfig::new("https://muxi.example.com:7890///", "k", "s");
    assert_eq!(c.url, "https://muxi.example.com:7890");
    assert_eq!(c.key_id, "k");
    assert_eq!(c.secret_key, "s");
    assert_eq!(c.timeout, 30);
    assert_eq!(c.max_retries, 0);
}

#[test]
fn server_client_urls_headers_and_paths() {
    let client = ServerClient::new(ServerConfig::new("http://h/", "key", "sec")).unwrap();
    assert_eq!(client.url_for("/rpc/formations"), "http://h/rpc/formations");
    let h = client.request_headers("POST", "/rpc/formations/f/stop", true, true, "linux", "x86_64");
    let names: Vec<&str> = h.iter().map(|(n, _)| n.as_str()).collect();
    assert_eq!(names, vec!["X-Muxi-SDK", "X-Muxi-Client", "X-Muxi-Idempotency-Key", "Accept", "Content-Type", "Authorization"]);
    assert_eq!(h[0].1, "rust/0.1.0");
    assert_eq!(h[1].1, "linux/x86_64");
    assert_uuid_v4(&h[2].1);
    assert!(h[5].1.starts_with("MUXI-HMAC-SHA256 Credential=key,Timestamp="));
    let h = client.request_headers("GET", "/health", false, false, "macos", "aarch64");
    assert_eq!(h[1].1, "macos/aarch64");
    assert_eq!(h.len(), 4);
    let s = client.stream_headers("GET", "/rpc/formations/f/logs/stream", false);
    let names: Vec<&str> = s.iter().map(|(n, _)| n.as_str()).collect();
    assert_eq!(names, vec!["X-Muxi-SDK", "Authorization", "Accept"]);
    assert_eq!(s[2].1, "text/event-stream");
    assert_eq!(ServerClient::formation_logs_path("f1", Some(50)), "/rpc/formations/f1/logs?limit=50");
    assert_eq!(ServerClient::formation_logs_path("f1", None), "/rpc/formations/f1/logs");
    assert_eq!(ServerClient::server_logs_path(Some(0)), "/rpc/server/logs?limit=0");
    assert_eq!(ServerClient::server_logs_path(None), "/rpc/server/logs");
}

#[test]
fn formation_base_urls() {
    let c = FormationClient::new(FormationConfig::new("https://srv/", "bot", "ck", "ak")).unwrap();
    assert_eq!(c.build_url("/health", None), "https://srv/api/bot/v1/health");
    let mut cfg = FormationConfig::new("https://srv", "bot", "ck", "ak");
    cfg.mode = "draft".to_string();
    let c = FormationClient::new(cfg).unwrap();
    assert_eq!(c.build_url("chat", None), "https://srv/draft/bot/v1/chat");
    let c = FormationClient::new(FormationConfig::with_base_url("http://localhost:8001//", "ck", "ak")).unwrap();
    assert_eq!(
        c.build_url("/sessions", Some(vec![("user_id", "u1".to_string()), ("limit", "5".to_string())])),
        "http://localhost:8001/sessions?user_id=u1&limit=5"
    );
    assert_eq!(c.build_url("/x", Some(vec![])), "http://localhost:8001/x");
    let mut cfg = FormationConfig::with_base_url("b", "ck", "ak");
    cfg.base_url = None;
    match FormationClient::new(cfg) {
        Err(MuxiError::Connection(m)) => assert_eq!(m, "Must provide base_url or server_url+formation_id"),
        _ => panic!("expected a connection error"),
    }
}

#[test]
fn formation_headers_pick_the_key() {
    let c = FormationClient::new(FormationConfig::with_base_url("http://h", "ck", "ak")).unwrap();
    let h = c.headers_with_key(true, Some("u1"), true, "idem", "linux", "x86_64");
    let pairs: Vec<(&str, &str)> = h.iter().map(|(a, b)| (a.as_str(), b.as_str())).collect();
    assert_eq!(
        pairs,
        vec![
            ("X-Muxi-SDK", "rust/0.1.0"),
            ("X-Muxi-Client", "linux/x86_64"),
            ("X-Muxi-Idempotency-Key", "idem"),
            ("Accept", "application/json"),
            ("X-MUXI-ADMIN-KEY", "ak"),
            ("X-Muxi-User-ID", "u1"),
            ("Content-Type", "application/json"),
        ]
    );
    let h = c.headers_with_key(false, None, false, "idem", "windows", "x86");
    assert_eq!(h.len(), 5);
    assert_eq!(h[4], ("X-MUXI-CLIENT-KEY".to_string(), "ck".to_string()));
    assert_eq!(h[1].1, "windows/x86");
    let h = c.request_headers(false, None, false, "linux", "arm");
    assert_uuid_v4(&h[2].1);
    let h2 = c.request_headers(false, None, false, "linux", "arm");
    assert_uuid_v4(&h2[2].1);
    assert_ne!(h[2].1, h2[2].1);
}

#[test]
fn requests_are_prepared_or_refused() {
    let c = FormationClient::new(FormationConfig::with_base_url("http://h", "ck", "ak")).unwrap();
    let p = c.prepare_request("PUT", "/secrets/k", None, true, true, None, "linux", "x86_64").unwrap();
    assert_eq!(p.headers[1].1, "linux/x86_64");
    assert_eq!(p.method, HttpMethod::Put);
    assert_eq!(p.url, "http://h/secrets/k");
    match c.prepare_request("PATCH", "/x", None, false, false, None, "linux", "x86_64") {
        Err(MuxiError::Connection(m)) => assert_eq!(m, "Unknown method: PATCH"),
        _ => panic!("expected an unknown method"),
    }
    assert_eq!(parse_method("GET").unwrap(), HttpMethod::Get);
    assert_eq!(parse_method("DELETE").unwrap(), HttpMethod::Delete);
    assert_eq!(parse_method("POST").unwrap(), HttpMethod::Post);
    assert!(parse_method("get").is_err());
}

#[test]
fn user_params_with_and_without_limit() {
    assert_eq!(user_params("u", Some(10)), vec![("user_id", "u".to_string()), ("limit", "10".to_string())]);
    assert_eq!(user_params("u", None), vec![("user_id", "u".to_string())]);
}

#[test]
fn platform_header_value_joins_os_and_arch() {
    assert_eq!(platform_header_value("linux", "x86_64"), "linux/x86_64");
    assert_eq!(platform_header_value("", ""), "/");
}

#[test]
fn retry_delays_follow_status_attempt_and_retry_after() {
    // No retries configured: never retry.
    assert_eq!(retry_delay(0, 0, 503, None), None);
    // Exponential backoff on server errors.
    assert_eq!(retry_delay(0, 3, 500, None), Some(1));
    assert_eq!(retry_delay(1, 3, 599, None), Some(2));
    assert_eq!(retry_delay(2, 3, 502, None), Some(4));
    // Attempts used up.
    assert_eq!(retry_delay(3, 3, 502, None), None);
    // Rate limits respect Retry-After, and back off without it.
    assert_eq!(retry_delay(0, 2, 429, Some(30)), Some(30));
    assert_eq!(retry_delay(1, 2, 429, None), Some(2));
    // A Retry-After on a server error is not used.
    assert_eq!(retry_delay(1, 2, 503, Some(30)), Some(2));
    // Other statuses are not retried.
    assert_eq!(retry_delay(0, 5, 404, None), None);
    assert_eq!(retry_delay(0, 5, 600, None), None);
    assert_eq!(retry_delay(0, 5, 200, None), None);
    // The backoff holds at the largest u64 once it no longer fits.
    assert_eq!(retry_delay(63, u32::MAX, 500, None), Some(1u64 << 63));
    assert_eq!(retry_delay(64, u32::MAX, 500, None), Some(u64::MAX));
}

#[test]
fn clients_keep_the_configured_timeout() {
    let mut cfg = ServerConfig::new("http://h", "k", "s");
    assert_eq!(ServerClient::new(cfg.clone()).unwrap().timeout_secs(), 30);
    cfg.timeout = 5;
    assert_eq!(ServerClient::new(cfg).unwrap().timeout_secs(), 5);
    let mut fc = FormationConfig::with_base_url("http://h", "ck", "ak");
    assert_eq!(FormationClient::new(fc.clone()).unwrap().timeout_secs(), 30);
    fc.timeout = 7;
    assert_eq!(FormationClient::new(fc).unwrap().timeout_secs(), 7);
}
