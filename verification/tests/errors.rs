use chronicle_data_api::error::AppError;
use chronicle_data_api::ids::{ETag, PseudoIdError};
use chronicle_data_api::state::UnknownStatus;

#[test]
fn statuses_and_bodies() {
    let (s, b) = AppError::NotFound("session x not found".to_string()).response();
    assert_eq!(s, 404);
    assert_eq!(b.error, "session x not found");
    let (s, b) = AppError::PreconditionFailed { current_etag: ETag("abc".to_string()) }.response();
    assert_eq!(s, 412);
    assert_eq!(b.error, "if-match precondition failed");
    assert_eq!(b.current_etag.as_deref(), Some("abc"));
    let (s, b) = AppError::MissingHeader("X-Duration-Ms").response();
    assert_eq!(s, 400);
    assert_eq!(b.error, "missing required header: X-Duration-Ms");
    let (s, b) = AppError::IllegalTransition { from: "deleted".to_string(), to: "recording".to_string() }.response();
    assert_eq!(s, 409);
    assert_eq!(b.error, "illegal transition: deleted -> recording");
    let (s, b) = AppError::s3("put k → HTTP 500".to_string()).response();
    assert_eq!(s, 502);
    assert_eq!(b.error, "s3: put k → HTTP 500");
    assert_eq!(b.retryable, Some(true));
    let (s, b) = AppError::Database("secret detail".to_string()).response();
    assert_eq!(s, 500);
    assert_eq!(b.error, "database error");
    let (s, _) = AppError::Gone("x".to_string()).response();
    assert_eq!(s, 410);
    let (s, _) = AppError::PayloadTooLarge("x".to_string()).response();
    assert_eq!(s, 413);
}

#[test]
fn only_server_failures_are_logged() {
    assert!(AppError::Internal("x".to_string()).is_logged());
    assert!(AppError::Database("x".to_string()).is_logged());
    assert!(!AppError::BadRequest("x".to_string()).is_logged());
}

#[test]
fn conversions() {
    assert!(matches!(AppError::from(PseudoIdError::Invalid), AppError::InvalidPseudoId));
    match AppError::from_unknown_status(UnknownStatus("paused".to_string())) {
        AppError::BadRequest(m) => assert_eq!(m, "unknown status: paused"),
        _ => panic!("expected bad request"),
    }
    let (s, b) = AppError::InvalidPseudoId.response();
    assert_eq!(s, 400);
    assert_eq!(b.error, "invalid pseudo_id format: expected 24 hex chars");
}

#[test]
fn remaining_statuses() {
    let cases = vec![
        (AppError::Forbidden("no".to_string()), 403, "no"),
        (AppError::Conflict("dup".to_string()), 409, "dup"),
        (AppError::Unauthorized("who".to_string()), 401, "who"),
        (AppError::Serde("eof".to_string()), 400, "invalid json: eof"),
        (AppError::Internal("boom".to_string()), 500, "internal error"),
        (AppError::BadRequest("bad".to_string()), 400, "bad"),
    ];
    for (e, code, msg) in cases {
        let (s, b) = e.response();
        assert_eq!(s, code);
        assert_eq!(b.error, msg);
        assert_eq!(b.current_etag, None);
        assert_eq!(b.retryable, None);
    }
}
