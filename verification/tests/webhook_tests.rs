use muxi_rust::webhook::Webhook;

#[test]
fn test_verify_signature_missing_secret() {
    assert!(Webhook::verify_signature("payload", Some("t=123,v1=abc"), "").is_err());
}

#[test]
fn test_verify_signature_null_header() {
    assert_eq!(Webhook::verify_signature("payload", None, "secret").unwrap(), false);
}

#[test]
fn test_verify_signature_empty_header() {
    assert_eq!(Webhook::verify_signature("payload", Some(""), "secret").unwrap(), false);
}

const PAYLOAD: &str = r#"{"status":"completed"}"#;
const SIG: &str = "d80d2d3221240502327e5fc77d27643d8c00361593af26d0da73deb31f26f0d7";

#[test]
fn signed_delivery_verifies_within_tolerance() {
    let header = format!("t=1700000000,v1={}", SIG);
    assert_eq!(Webhook::verify_signature_at(PAYLOAD, Some(&header), "whsec", 300, 1_700_000_000), Ok(true));
    assert_eq!(Webhook::verify_signature_at(PAYLOAD, Some(&header), "whsec", 300, 1_700_000_300), Ok(true));
    assert_eq!(Webhook::verify_signature_at(PAYLOAD, Some(&header), "whsec", 300, 1_699_999_700), Ok(true));
}

#[test]
fn delivery_outside_tolerance_is_rejected() {
    let header = format!("t=1700000000,v1={}", SIG);
    assert_eq!(Webhook::verify_signature_at(PAYLOAD, Some(&header), "whsec", 300, 1_700_000_301), Ok(false));
}

#[test]
fn tampered_payload_or_wrong_secret_is_rejected() {
    let header = format!("t=1700000000,v1={}", SIG);
    assert_eq!(Webhook::verify_signature_at("{}", Some(&header), "whsec", 300, 1_700_000_000), Ok(false));
    assert_eq!(Webhook::verify_signature_at(PAYLOAD, Some(&header), "other", 300, 1_700_000_000), Ok(false));
}

#[test]
fn header_parts_are_trimmed_and_later_ones_win() {
    let header = format!(" v1 = deadbeef , t = 1700000000 , junk, v1 ={} ", SIG);
    assert_eq!(Webhook::verify_signature_at(PAYLOAD, Some(&header), "whsec", 300, 1_700_000_000), Ok(true));
}

#[test]
fn missing_field_gives_false_and_bad_timestamp_gives_error() {
    assert_eq!(Webhook::verify_signature_at(PAYLOAD, Some("t=1700000000"), "whsec", 300, 0), Ok(false));
    assert_eq!(Webhook::verify_signature_at(PAYLOAD, Some("v1=abc"), "whsec", 300, 0), Ok(false));
    assert_eq!(
        Webhook::verify_signature_at(PAYLOAD, Some("t=abc,v1=abc"), "whsec", 300, 0),
        Err("Invalid timestamp")
    );
    assert_eq!(
        Webhook::verify_signature_at(PAYLOAD, Some("t=123,v1=abc"), "", 300, 0),
        Err("Webhook secret is required")
    );
}

#[test]
fn stale_delivery_is_rejected_by_the_clock() {
    let header = format!("t=1700000000,v1={}", SIG);
    assert_eq!(Webhook::verify_signature(PAYLOAD, Some(&header), "whsec"), Ok(false));
    assert_eq!(
        Webhook::verify_signature_with_tolerance(PAYLOAD, Some(&header), "whsec", u64::MAX),
        Ok(true)
    );
}

#[test]
fn padding_and_unrelated_parts_leave_the_verdict() {
    let plain = format!("t=1700000000,v1={}", SIG);
    let padded = format!("  t =\t1700000000 ,v0=x, note ,  v1 =  {}  ", SIG);
    for now in [1_700_000_000u64, 1_700_000_301, 0] {
        assert_eq!(
            Webhook::verify_signature_at(PAYLOAD, Some(&plain), "whsec", 300, now),
            Webhook::verify_signature_at(PAYLOAD, Some(&padded), "whsec", 300, now)
        );
    }
    let wrong = "t=1700000000,v1=00";
    let wrong_padded = " x=1 , t = 1700000000, v1= 00 ";
    assert_eq!(
        Webhook::verify_signature_at(PAYLOAD, Some(wrong), "whsec", 300, 1_700_000_000),
        Webhook::verify_signature_at(PAYLOAD, Some(wrong_padded), "whsec", 300, 1_700_000_000)
    );
    assert_eq!(
        Webhook::verify_signature_at(PAYLOAD, Some("v0=a,junk"), "whsec", 300, 0),
        Webhook::verify_signature_at(PAYLOAD, Some(""), "whsec", 300, 0)
    );
}

#[test]
fn default_tolerance_is_five_minutes() {
    assert_eq!(muxi_rust::webhook::DEFAULT_TOLERANCE_SECS, 300);
}
