use muxi_rust::auth::Auth;

#[test]
fn test_generate_hmac_signature() {
    let (sig, ts) = Auth::generate_hmac_signature("GET", "/rpc/status", "key123", "secret456");
    assert!(!sig.is_empty());
    assert!(!ts.is_empty());
}

#[test]
fn test_build_auth_header() {
    let header = Auth::build_auth_header("key123", "sig456", "1234567890");
    assert!(header.contains("MUXI-HMAC-SHA256"));
    assert!(header.contains("key123"));
    assert!(header.contains("sig456"));
}

#[test]
fn test_signature_strips_query_params() {
    let (sig1, _) = Auth::generate_hmac_signature("GET", "/path", "key", "secret");
    let (sig2, _) = Auth::generate_hmac_signature("GET", "/path?foo=bar", "key", "secret");
    assert!(!sig1.is_empty());
    assert!(!sig2.is_empty());
}

#[test]
fn auth_header_has_exact_layout() {
    let header = Auth::build_auth_header("key123", "sig456", "1234567890");
    assert_eq!(header, "MUXI-HMAC-SHA256 Credential=key123,Timestamp=1234567890,Signature=sig456");
}

#[test]
fn signature_at_known_time_matches_reference_value() {
    let (sig, ts) = Auth::hmac_signature_at("GET", "/rpc/status", "secret456", 1_700_000_000);
    assert_eq!(ts, "1700000000");
    assert_eq!(sig, "RIJqSgt4mYxTH7PcTgzu6TGZsmOU3epj0y0ZvXNclk4=");
}

#[test]
fn signature_upper_cases_the_method() {
    let (lower, _) = Auth::hmac_signature_at("get", "/rpc/status", "secret456", 1_700_000_000);
    let (upper, _) = Auth::hmac_signature_at("GET", "/rpc/status", "secret456", 1_700_000_000);
    assert_eq!(lower, upper);
}

#[test]
fn signature_ignores_query_at_same_time() {
    let (a, _) = Auth::hmac_signature_at("POST", "/rpc/formations/x/stop", "s", 42);
    let (b, _) = Auth::hmac_signature_at("POST", "/rpc/formations/x/stop?dry=1&x=2", "s", 42);
    assert_eq!(a, b);
}

#[test]
fn signature_depends_on_time_and_secret() {
    let (a, _) = Auth::hmac_signature_at("GET", "/p", "s", 1);
    let (b, _) = Auth::hmac_signature_at("GET", "/p", "s", 2);
    let (c, _) = Auth::hmac_signature_at("GET", "/p", "t", 1);
    assert_ne!(a, b);
    assert_ne!(a, c);
    assert_eq!(a.len(), 44);
}

#[test]
fn generated_timestamp_is_current_decimal_seconds() {
    let before = std::time::SystemTime::now()
        .duration_since(std::time::UNIX_EPOCH)
        .unwrap()
        .as_secs();
    let (sig, ts) = Auth::generate_hmac_signature("GET", "/rpc/status", "key123", "secret456");
    let t: u64 = ts.parse().unwrap();
    assert!(t >= before && t <= before + 5);
    let (expected, _) = Auth::hmac_signature_at("GET", "/rpc/status", "secret456", t);
    assert_eq!(sig, expected);
}

#[test]
fn signed_header_carries_key_and_timestamp() {
    let h = Auth::signed_auth_header("GET", "/rpc/status", "key123", "secret456");
    assert!(h.starts_with("MUXI-HMAC-SHA256 Credential=key123,Timestamp="));
    assert!(h.contains(",Signature="));
}

#[test]
fn signature_is_44_characters_and_ignores_key_id() {
    let (sig, ts) = Auth::hmac_signature_at("GET", "/rpc/status", "secret456", 7);
    assert_eq!(sig.len(), 44);
    assert_eq!(ts, "7");
    loop {
        let (a, ta) = Auth::generate_hmac_signature("GET", "/p", "key-one", "secret");
        let (b, tb) = Auth::generate_hmac_signature("GET", "/p", "key-two", "secret");
        if ta == tb {
            assert_eq!(a, b);
            assert_eq!(a.len(), 44);
            break;
        }
    }
}

#[test]
fn method_case_does_not_change_the_signature() {
    let (a, _) = Auth::hmac_signature_at("post", "/x", "s", 99);
    let (b, _) = Auth::hmac_signature_at("PoSt", "/x", "s", 99);
    let (c, _) = Auth::hmac_signature_at("POST", "/x", "s", 99);
    assert_eq!(a, b);
    assert_eq!(b, c);
}
