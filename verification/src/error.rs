//! Application-level error type.
//!
//! Every handler fails with an [`AppError`]; [`AppError::response`] says
//! which HTTP status and JSON error body each variant is answered with.

use vstd::prelude::*;

use crate::ids::{ETag, PseudoIdError};
use crate::state::UnknownStatus;

verus! {

#[derive(Debug)]
pub enum AppError {
    NotFound(String),
    BadRequest(String),
    Unauthorized(String),
    Forbidden(String),
    Conflict(String),
    Gone(String),
    PayloadTooLarge(String),
    PreconditionFailed { current_etag: ETag },
    MissingHeader(&'static str),
    InvalidPseudoId,
    IllegalTransition { from: String, to: String },
    /// A database failure; carries the driver's description for the log.
    Database(String),
    S3 { reason: String, retryable: bool },
    Serde(String),
    Internal(String),
}

/// The JSON body of an error response: `{"error": ...}` plus, for a failed
/// precondition, `current_etag`, and for S3 failures, `retryable`.
pub struct ErrorBody {
    pub error: String,
    pub current_etag: Option<String>,
    pub retryable: Option<bool>,
}

/// HTTP status for each variant.
pub open spec fn error_status(e: AppError) -> u16 {
    match e {
        AppError::NotFound(_) => 404,
        AppError::BadRequest(_) => 400,
        AppError::Unauthorized(_) => 401,
        AppError::Forbidden(_) => 403,
        AppError::Conflict(_) => 409,
        AppError::Gone(_) => 410,
        AppError::PayloadTooLarge(_) => 413,
        AppError::PreconditionFailed { .. } => 412,
        AppError::MissingHeader(_) => 400,
        AppError::InvalidPseudoId => 400,
        AppError::IllegalTransition { .. } => 409,
        AppError::Database(_) => 500,
        AppError::S3 { .. } => 502,
        AppError::Serde(_) => 400,
        AppError::Internal(_) => 500,
    }
}

/// The `error` field of the body for each variant. Database and internal
/// failures are not described to the client.
pub open spec fn error_message(e: AppError) -> Seq<char> {
    match e {
        AppError::NotFound(m) => m@,
        AppError::BadRequest(m) => m@,
        AppError::Unauthorized(m) => m@,
        AppError::Forbidden(m) => m@,
        AppError::Conflict(m) => m@,
        AppError::Gone(m) => m@,
        AppError::PayloadTooLarge(m) => m@,
        AppError::PreconditionFailed { .. } => "if-match precondition failed"@,
        AppError::MissingHeader(h) => "missing required header: "@ + h@,
        AppError::InvalidPseudoId => "invalid pseudo_id format: expected 24 hex chars"@,
        AppError::IllegalTransition { from, to } => "illegal transition: "@ + from@ + " -> "@ + to@,
        AppError::Database(_) => "database error"@,
        AppError::S3 { reason, .. } => "s3: "@ + reason@,
        AppError::Serde(m) => "invalid json: "@ + m@,
        AppError::Internal(_) => "internal error"@,
    }
}

impl AppError {
    /// A retryable S3 failure.
    pub fn s3(msg: String) -> (r: AppError)
        ensures
            r matches AppError::S3 { reason, retryable } && reason@ == msg@ && retryable,
    {
        AppError::S3 { reason: msg, retryable: true }
    }

    /// `unknown status: {name}` as a bad request.
    pub fn from_unknown_status(e: UnknownStatus) -> (r: AppError)
        ensures
            r matches AppError::BadRequest(m) && m@ == "unknown status: "@ + e.0@,
    {
        let mut m = "unknown status: ".to_owned();
        m.append(e.0.as_str());
        AppError::BadRequest(m)
    }

    /// Whether the failure is logged at error level when answered.
    pub fn is_logged(&self) -> (r: bool)
        ensures
            r == (self is Database || self is S3 || self is Internal),
    {
        matches!(self, AppError::Database(_) | AppError::S3 { .. } | AppError::Internal(_))
    }

    /// The status and body this error is answered with.
    pub fn response(&self) -> (r: (u16, ErrorBody))
        ensures
            r.0 == error_status(*self),
            r.1.error@ == error_message(*self),
            match *self {
                AppError::PreconditionFailed { current_etag } => r.1.current_etag matches Some(t)
                    && t@ == current_etag@,
                _ => r.1.current_etag is None,
            },
            match *self {
                AppError::S3 { retryable, .. } => r.1.retryable == Some(retryable),
                _ => r.1.retryable is None,
            },
    {
        match self {
            AppError::NotFound(m) => (404, ErrorBody { error: m.clone(), current_etag: None, retryable: None }),
            AppError::BadRequest(m) => (400, ErrorBody { error: m.clone(), current_etag: None, retryable: None }),
            AppError::Unauthorized(m) => (401, ErrorBody { error: m.clone(), current_etag: None, retryable: None }),
            AppError::Forbidden(m) => (403, ErrorBody { error: m.clone(), current_etag: None, retryable: None }),
            AppError::Conflict(m) => (409, ErrorBody { error: m.clone(), current_etag: None, retryable: None }),
            AppError::Gone(m) => (410, ErrorBody { error: m.clone(), current_etag: None, retryable: None }),
            AppError::PayloadTooLarge(m) => (413, ErrorBody { error: m.clone(), current_etag: None, retryable: None }),
            AppError::PreconditionFailed { current_etag } => (
                412,
                ErrorBody {
                    error: "if-match precondition failed".to_owned(),
                    current_etag: Some(current_etag.0.clone()),
                    retryable: None,
                },
            ),
            AppError::MissingHeader(h) => {
                let mut m = "missing required header: ".to_owned();
                m.append(h);
                (400, ErrorBody { error: m, current_etag: None, retryable: None })
            },
            AppError::InvalidPseudoId => (
                400,
                ErrorBody {
                    error: "invalid pseudo_id format: expected 24 hex chars".to_owned(),
                    current_etag: None,
                    retryable: None,
                },
            ),
            AppError::IllegalTransition { from, to } => {
                let mut m = "illegal transition: ".to_owned();
                m.append(from.as_str());
                m.append(" -> ");
                m.append(to.as_str());
                (409, ErrorBody { error: m, current_etag: None, retryable: None })
            },
            AppError::Database(_) => (
                500,
                ErrorBody { error: "database error".to_owned(), current_etag: None, retryable: None },
            ),
            AppError::S3 { reason, retryable } => {
                let mut m = "s3: ".to_owned();
                m.append(reason.as_str());
                (502, ErrorBody { error: m, current_etag: None, retryable: Some(*retryable) })
            },
            AppError::Serde(e) => {
                let mut m = "invalid json: ".to_owned();
                m.append(e.as_str());
                (400, ErrorBody { error: m, current_etag: None, retryable: None })
            },
            AppError::Internal(_) => (
                500,
                ErrorBody { error: "internal error".to_owned(), current_etag: None, retryable: None },
            ),
        }
    }
}

impl From<PseudoIdError> for AppError {
    fn from(e: PseudoIdError) -> (r: AppError) {
        AppError::InvalidPseudoId
    }
}

impl vstd::std_specs::convert::FromSpecImpl<PseudoIdError> for AppError {
    open spec fn obeys_from_spec() -> bool {
        true
    }

    open spec fn from_spec(v: PseudoIdError) -> AppError {
        AppError::InvalidPseudoId
    }
}

} // verus!
