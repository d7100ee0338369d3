use twirp::error::TwirpErrorCode;
use twirp::error::TwirpErrorResponse;
use twirp::json::{encode_error_response, parse_error_response};

fn encode_to_string(e: &TwirpErrorResponse) -> String {
    String::from_utf8(encode_error_response(e)).expect("envelope must be UTF-8")
}

#[test]
fn twirp_error_response_serialization() {
    let response = TwirpErrorResponse::new(TwirpErrorCode::DeadlineExceeded, "test".to_string())
        .with_meta("key1", "value1")
        .with_meta("key2", "value2");

    let result = encode_to_string(&response);
    assert!(result.contains(r#""code":"deadline_exceeded""#));
    assert!(result.contains(r#""msg":"test""#));
    assert!(result.contains(r#""key1":"value1""#));
    assert!(result.contains(r#""key2":"value2""#));

    let result = parse_error_response(result.as_bytes()).unwrap();
    assert_eq!(response, result);
}

#[test]
fn twirp_error_response_serialization_skips_fields() {
    let response = TwirpErrorResponse::new(TwirpErrorCode::Unauthenticated, "test".to_string())
        .with_rust_error_string("not included".to_string());

    let result = encode_to_string(&response);
    assert!(result.contains(r#""code":"unauthenticated""#));
    assert!(result.contains(r#""msg":"test""#));
    assert!(!result.contains(r#"rust_error"#));
}

#[test]
fn envelope_shape_without_meta() {
    let e = twirp::error::bad_route("not found");
    assert_eq!(
        encode_to_string(&e),
        r#"{"code":"bad_route","msg":"not found"}"#
    );
}

#[test]
fn envelope_shape_with_meta() {
    let e = twirp::error::malformed("bad request").with_meta("error", "eof");
    assert_eq!(
        encode_to_string(&e),
        r#"{"code":"malformed","msg":"bad request","meta":{"error":"eof"}}"#
    );
}

#[test]
fn escaping_round_trips() {
    let msg = "a \"quoted\" value with \\ backslash and \t tab and \n newline";
    let e = TwirpErrorResponse::new(TwirpErrorCode::Internal, msg.to_string())
        .with_meta("weird \"key\"", "line1\nline2");
    let bytes = encode_error_response(&e);
    let parsed = parse_error_response(&bytes).expect("canonical envelope must parse");
    assert_eq!(parsed.code, TwirpErrorCode::Internal);
    assert_eq!(parsed.msg, msg);
    assert_eq!(
        parsed.meta.get("weird \"key\"").map(|s| s.as_str()),
        Some("line1\nline2")
    );
}

#[test]
fn control_bytes_use_lowercase_hex_escapes() {
    let e = TwirpErrorResponse::new(TwirpErrorCode::Internal, "a\u{1f}b".to_string());
    let text = encode_to_string(&e);
    assert!(text.contains(r#"a\u001fb"#));
}

#[test]
fn non_ascii_message_round_trips() {
    let msg = "ün données perdues — 数据丢失";
    let e = TwirpErrorResponse::new(TwirpErrorCode::Dataloss, msg.to_string());
    let parsed = parse_error_response(&encode_error_response(&e)).unwrap();
    assert_eq!(parsed.msg, msg);
}

#[test]
fn round_trip_drops_only_diagnostics() {
    let e = TwirpErrorResponse::new(TwirpErrorCode::Unavailable, "busy".to_string())
        .with_meta("shard", "7")
        .with_rust_error_string("secret backtrace".to_string());
    let text = encode_to_string(&e);
    assert!(!text.contains("secret backtrace"));
    let parsed = parse_error_response(text.as_bytes()).unwrap();
    assert_eq!(parsed.code, e.code);
    assert_eq!(parsed.msg, e.msg);
    assert_eq!(parsed.meta, e.meta);
    assert_eq!(parsed.rust_error, None);
    assert_eq!(parsed.retry_after(), None);
}

#[test]
fn malformed_envelopes_are_rejected() {
    assert!(parse_error_response(b"").is_none());
    assert!(parse_error_response(b"{}").is_none());
    assert!(parse_error_response(br#"{"code":"nonsense","msg":"x"}"#).is_none());
    assert!(parse_error_response(br#"{"code":"internal","msg":"x""#).is_none());
    assert!(parse_error_response(br#"{"code":"internal","msg":"x"}x"#).is_none());
    assert!(parse_error_response(br#"{"msg":"x","code":"internal"}"#).is_none());
    assert!(
        parse_error_response(br#"{"code":"internal","msg":"x","meta":{"a":"1","a":"2"}}"#)
            .is_none()
    );
    // Lone surrogate halves are not scalar values.
    assert!(parse_error_response(br#"{"code":"internal","msg":"\uD800 lone"}"#).is_none());
    assert!(parse_error_response(br#"{"code":"internal","msg":"\uDE00 lone"}"#).is_none());
}

#[test]
fn insignificant_whitespace_is_accepted() {
    let text =
        " { \"code\" :\t\"internal\" ,\n \"msg\" : \"x\" ,\r\n \"meta\" : { \"a\" : \"1\" } } ";
    let parsed = parse_error_response(text.as_bytes()).unwrap();
    assert_eq!(parsed.code, TwirpErrorCode::Internal);
    assert_eq!(parsed.msg, "x");
    assert_eq!(parsed.meta.get("a").map(|s| s.as_str()), Some("1"));

    let trailing = parse_error_response(br#"{"code":"internal","msg":"x"}  "#).unwrap();
    assert_eq!(trailing.msg, "x");
}

#[test]
fn empty_meta_object_is_accepted() {
    let parsed = parse_error_response(br#"{"code":"internal","msg":"x","meta":{}}"#).unwrap();
    assert_eq!(parsed.code, TwirpErrorCode::Internal);
    assert_eq!(parsed.meta.len(), 0);
}

#[test]
fn short_escapes_are_accepted() {
    let parsed = parse_error_response(br#"{"code":"internal","msg":"a\nb\tc\/d\b\f\r"}"#).unwrap();
    assert_eq!(parsed.msg, "a\nb\tc/d\u{8}\u{c}\r");
}

#[test]
fn unicode_escapes_are_accepted() {
    let parsed =
        parse_error_response(br#"{"code":"internal","msg":"\u0041\u00e9\u20AC"}"#).unwrap();
    assert_eq!(parsed.msg, "A\u{e9}\u{20ac}");
}

#[test]
fn surrogate_pairs_decode_to_astral_code_points() {
    let parsed =
        parse_error_response(br#"{"code":"internal","msg":"ok \uD83D\uDE00"}"#).unwrap();
    assert_eq!(parsed.msg, "ok \u{1f600}");
}

#[test]
fn invalid_utf8_in_message_is_rejected() {
    let mut bytes = br#"{"code":"internal","msg":""#.to_vec();
    bytes.push(0xFF);
    bytes.extend_from_slice(br#""}"#);
    assert!(parse_error_response(&bytes).is_none());
}

#[test]
fn code_names_parse_back() {
    for (name, code) in [
        ("canceled", TwirpErrorCode::Canceled),
        ("dataloss", TwirpErrorCode::Dataloss),
        ("out_of_range", TwirpErrorCode::OutOfRange),
    ] {
        let text = format!(r#"{{"code":"{}","msg":"m"}}"#, name);
        let parsed = parse_error_response(text.as_bytes()).unwrap();
        assert_eq!(parsed.code, code);
    }
}
