use twirp::error::TwirpErrorCode;
use twirp::error::TwirpErrorResponse;

fn assert_code(code: TwirpErrorCode, msg: &str, http: u16) {
    assert_eq!(
        code.http_status_code(),
        http,
        "expected http status code {} but got {}",
        http,
        code.http_status_code()
    );
    assert_eq!(
        code.twirp_code(),
        msg,
        "expected error message '{}' but got '{}'",
        msg,
        code.twirp_code()
    );
}

#[test]
fn twirp_status_mapping() {
    assert_code(TwirpErrorCode::Canceled, "canceled", 408);
    assert_code(TwirpErrorCode::Unknown, "unknown", 500);
    assert_code(TwirpErrorCode::InvalidArgument, "invalid_argument", 400);
    assert_code(TwirpErrorCode::Malformed, "malformed", 400);
    assert_code(TwirpErrorCode::Unauthenticated, "unauthenticated", 401);
    assert_code(TwirpErrorCode::PermissionDenied, "permission_denied", 403);
    assert_code(TwirpErrorCode::DeadlineExceeded, "deadline_exceeded", 408);
    assert_code(TwirpErrorCode::NotFound, "not_found", 404);
    assert_code(TwirpErrorCode::BadRoute, "bad_route", 404);
    assert_code(TwirpErrorCode::Unimplemented, "unimplemented", 501);
    assert_code(TwirpErrorCode::Internal, "internal", 500);
    assert_code(TwirpErrorCode::Unavailable, "unavailable", 503);
}

#[test]
fn full_status_table() {
    assert_code(TwirpErrorCode::AlreadyExists, "already_exists", 409);
    assert_code(TwirpErrorCode::ResourceExhausted, "resource_exhausted", 429);
    assert_code(TwirpErrorCode::FailedPrecondition, "failed_precondition", 412);
    assert_code(TwirpErrorCode::Aborted, "aborted", 409);
    assert_code(TwirpErrorCode::OutOfRange, "out_of_range", 400);
    assert_code(TwirpErrorCode::Dataloss, "dataloss", 500);
}

#[test]
fn code_from_status_picks_first_declared() {
    assert_eq!(TwirpErrorCode::from(408u16), TwirpErrorCode::Canceled);
    assert_eq!(TwirpErrorCode::from(500u16), TwirpErrorCode::Unknown);
    assert_eq!(TwirpErrorCode::from(400u16), TwirpErrorCode::InvalidArgument);
    assert_eq!(TwirpErrorCode::from(404u16), TwirpErrorCode::NotFound);
    assert_eq!(TwirpErrorCode::from(409u16), TwirpErrorCode::AlreadyExists);
    assert_eq!(TwirpErrorCode::from(503u16), TwirpErrorCode::Unavailable);
    assert_eq!(TwirpErrorCode::from(418u16), TwirpErrorCode::Unknown);
}

#[test]
fn constructors_set_code_and_msg() {
    let e = twirp::error::invalid_argument("inches must be greater than 0");
    assert_eq!(e.code, TwirpErrorCode::InvalidArgument);
    assert_eq!(e.msg, "inches must be greater than 0");
    assert_eq!(e.meta.len(), 0);
    assert_eq!(e.retry_after(), None);

    let e = twirp::error::internal("boom!");
    assert_eq!(e.code, TwirpErrorCode::Internal);
    assert_eq!(e.msg, "boom!");
}

#[test]
fn retry_after_is_clamped_to_one_second() {
    let e = twirp::error::unavailable("try later").with_retry_after(Some(0));
    assert_eq!(e.retry_after(), Some(1));
    assert_eq!(e.meta.get("retry_after").map(|s| s.as_str()), Some("1"));
}

#[test]
fn retry_after_above_floor_is_kept() {
    let e = twirp::error::resource_exhausted("slow down").with_retry_after(Some(30));
    assert_eq!(e.retry_after(), Some(30));
    assert_eq!(e.meta.get("retry_after").map(|s| s.as_str()), Some("30"));
}

#[test]
fn clearing_retry_after_removes_the_meta_entry() {
    let e = twirp::error::unavailable("try later")
        .with_retry_after(Some(5))
        .with_retry_after(None);
    assert_eq!(e.retry_after(), None);
    assert!(e.meta.get("retry_after").is_none());
}

#[test]
fn with_meta_replaces_and_preserves() {
    let e = twirp::error::not_found("missing")
        .with_meta("k1", "v1")
        .with_meta("k2", "v2")
        .with_meta("k1", "v3");
    assert_eq!(e.meta.len(), 2);
    assert_eq!(e.meta.get("k1").map(|s| s.as_str()), Some("v3"));
    assert_eq!(e.meta.get("k2").map(|s| s.as_str()), Some("v2"));
}

#[test]
fn meta_mut_edits_in_place() {
    let mut e = twirp::error::not_found("missing");
    e.meta_mut().insert("k".to_string(), "v".to_string());
    assert_eq!(e.meta.get("k").map(|s| s.as_str()), Some("v"));
}

#[test]
fn display_form_names_code_and_details() {
    let plain = twirp::error::internal("boom!");
    assert_eq!(plain.display_string(), "error Internal: boom!");

    let rich = twirp::error::unavailable("try later")
        .with_meta("shard", "7")
        .with_retry_after(Some(5))
        .with_rust_error_string("disk on fire".to_string());
    assert_eq!(
        rich.display_string(),
        "error Unavailable: try later (meta: {\"shard\": \"7\", \"retry_after\": \"5\"}) \
         (retry_after: 5s) (rust_error: \"disk on fire\")"
    );
}

#[test]
fn internal_server_error_keeps_debug_detail() {
    let e = twirp::error::internal_server_error(String::from("io failure"));
    assert_eq!(e.code, TwirpErrorCode::Internal);
    assert_eq!(e.msg, "internal server error");
    assert_eq!(e.rust_error.as_deref(), Some("io failure"));
}
