//! The service's error type, the HTTP status of each error, and what a
//! client is told about it.

use vstd::prelude::*;
use crate::text::{chars_of, dec, push_dec, string_of};

verus! {

/// Every way a request can fail. Errors raised by outside libraries carry
/// their rendered message.
#[derive(Debug, Clone, PartialEq, Eq)]
pub enum AppError {
    ClipNotFound,
    RoleNotFound,
    FileNotFound,
    FileDeleteFailed,
    Forbidden,
    Unauthorized,
    InternalError,
    DbError(String),
    ReqwestError(String),
    IoError(String),
    ParseError(String),
    JwtError(String),
    HttpError(String),
    BadRequest(String),
    Conflict(String),
    InvalidParam(String),
    FfmpegError(String),
    BadGateway(String),
    GrpcError(String),
    ServiceUnavailable(String),
    RangeNotSatisfiable { total: u64 },
    InvalidToken,
}

/// The HTTP status code of an error.
pub open spec fn status_of(e: AppError) -> u16 {
    match e {
        AppError::ClipNotFound => 404,
        AppError::RoleNotFound => 404,
        AppError::FileNotFound => 404,
        AppError::FileDeleteFailed => 500,
        AppError::Forbidden => 403,
        AppError::Unauthorized => 401,
        AppError::InvalidToken => 401,
        AppError::BadRequest(_) => 400,
        AppError::Conflict(_) => 409,
        AppError::InvalidParam(_) => 400,
        AppError::ServiceUnavailable(_) => 503,
        AppError::BadGateway(_) => 502,
        AppError::RangeNotSatisfiable { .. } => 416,
        _ => 500,
    }
}

/// The full text of an error, with any carried detail.
pub open spec fn error_text(e: AppError) -> Seq<char> {
    match e {
        AppError::ClipNotFound => "Clip not found"@,
        AppError::RoleNotFound => "Role not found in this guild"@,
        AppError::FileNotFound => "File not found on disk"@,
        AppError::FileDeleteFailed => "File could not be deleted from disk"@,
        AppError::Forbidden => "Forbidden"@,
        AppError::Unauthorized => "Unauthorized"@,
        AppError::InternalError => "Internal Server Error"@,
        AppError::DbError(m) => "Database Error: "@ + m@,
        AppError::ReqwestError(m) => "Request Error: "@ + m@,
        AppError::IoError(m) => "IO Error: "@ + m@,
        AppError::ParseError(m) => "Parse Error: "@ + m@,
        AppError::JwtError(m) => "JWT Error: "@ + m@,
        AppError::HttpError(m) => "HTTP Error: "@ + m@,
        AppError::BadRequest(m) => "Bad Request: "@ + m@,
        AppError::Conflict(m) => "Conflict: "@ + m@,
        AppError::InvalidParam(m) => "Invalid path param: "@ + m@,
        AppError::FfmpegError(m) => "FFmpeg failed: "@ + m@,
        AppError::BadGateway(m) => "Bad Gateway: "@ + m@,
        AppError::GrpcError(m) => "Upstream gRPC error: "@ + m@,
        AppError::ServiceUnavailable(m) => "Service Unavailable: "@ + m@,
        AppError::RangeNotSatisfiable { .. } => "Requested range is not satisfiable"@,
        AppError::InvalidToken => "Invalid or expired token"@,
    }
}

pub open spec fn is_server_error(code: u16) -> bool {
    500 <= code && code < 600
}

/// The reason phrase that the HTTP library registers for a status code.
pub uninterp spec fn status_reason(code: u16) -> Option<Seq<char>>;

/// What a client is told: server faults get the bare reason phrase, never
/// the internal detail; client errors keep their explanatory text.
pub open spec fn client_message_spec(code: u16, e: AppError) -> Seq<char> {
    if is_server_error(code) {
        match status_reason(code) {
            Some(r) => r,
            None => "Error"@,
        }
    } else {
        error_text(e)
    }
}

/// `actix_web::http::StatusCode::canonical_reason` for `code`: `None` when
/// the code is outside 100..=999 or has no registered phrase. Stated only as
/// the name `status_reason`.
#[verifier::external_body]
fn canonical_reason(code: u16) -> (r: Option<String>)
    ensures
        match r {
            Some(s) => status_reason(code) == Some(s@),
            None => status_reason(code) is None,
        },
{
    match actix_web::http::StatusCode::from_u16(code) {
        Ok(status) => status.canonical_reason().map(|reason| reason.to_string()),
        Err(_) => None,
    }
}

fn prefixed(prefix: &str, m: &String) -> (s: String)
    ensures
        s@ == prefix@ + m@,
{
    let mut v = chars_of(prefix);
    let tail = chars_of(m.as_str());
    let ghost start = v@;
    let mut i: usize = 0;
    while i < tail.len()
        invariant
            i <= tail.len(),
            v@ == start + tail@.take(i as int),
        decreases tail.len() - i,
    {
        v.push(tail[i]);
        assert(tail@.take(i as int).push(tail@[i as int]) =~= tail@.take(i + 1));
        i = i + 1;
    }
    assert(tail@.take(tail@.len() as int) =~= tail@);
    string_of(&v)
}

fn plain(text: &str) -> (s: String)
    ensures
        s@ == text@,
{
    let v = chars_of(text);
    string_of(&v)
}

impl AppError {
    /// The HTTP status code of this error.
    pub fn status_code(&self) -> (code: u16)
        ensures
            code == status_of(*self),
    {
        match self {
            AppError::ClipNotFound => 404,
            AppError::RoleNotFound => 404,
            AppError::FileNotFound => 404,
            AppError::FileDeleteFailed => 500,
            AppError::Forbidden => 403,
            AppError::Unauthorized => 401,
            AppError::InvalidToken => 401,
            AppError::BadRequest(_) => 400,
            AppError::Conflict(_) => 409,
            AppError::InvalidParam(_) => 400,
            AppError::ServiceUnavailable(_) => 503,
            AppError::BadGateway(_) => 502,
            AppError::RangeNotSatisfiable { .. } => 416,
            _ => 500,
        }
    }

    /// The full text of this error.
    pub fn message(&self) -> (s: String)
        ensures
            s@ == error_text(*self),
    {
        match self {
            AppError::ClipNotFound => plain("Clip not found"),
            AppError::RoleNotFound => plain("Role not found in this guild"),
            AppError::FileNotFound => plain("File not found on disk"),
            AppError::FileDeleteFailed => plain("File could not be deleted from disk"),
            AppError::Forbidden => plain("Forbidden"),
            AppError::Unauthorized => plain("Unauthorized"),
            AppError::InternalError => plain("Internal Server Error"),
            AppError::DbError(m) => prefixed("Database Error: ", m),
            AppError::ReqwestError(m) => prefixed("Request Error: ", m),
            AppError::IoError(m) => prefixed("IO Error: ", m),
            AppError::ParseError(m) => prefixed("Parse Error: ", m),
            AppError::JwtError(m) => prefixed("JWT Error: ", m),
            AppError::HttpError(m) => prefixed("HTTP Error: ", m),
            AppError::BadRequest(m) => prefixed("Bad Request: ", m),
            AppError::Conflict(m) => prefixed("Conflict: ", m),
            AppError::InvalidParam(m) => prefixed("Invalid path param: ", m),
            AppError::FfmpegError(m) => prefixed("FFmpeg failed: ", m),
            AppError::BadGateway(m) => prefixed("Bad Gateway: ", m),
            AppError::GrpcError(m) => prefixed("Upstream gRPC error: ", m),
            AppError::ServiceUnavailable(m) => prefixed("Service Unavailable: ", m),
            AppError::RangeNotSatisfiable { .. } => plain("Requested range is not satisfiable"),
            AppError::InvalidToken => plain("Invalid or expired token"),
        }
    }

    /// The `Content-Range` header that accompanies a 416 response.
    pub fn content_range_header(&self) -> (h: Option<String>)
        ensures
            match *self {
                AppError::RangeNotSatisfiable { total } => h is Some && h->0@ == "bytes */"@ + dec(
                    total as nat,
                ),
                _ => h is None,
            },
    {
        match self {
            AppError::RangeNotSatisfiable { total } => {
                let mut v = chars_of("bytes */");
                push_dec(&mut v, *total);
                Some(string_of(&v))
            },
            _ => None,
        }
    }
}

/// The message sent to the client for `error` answered with `code`.
pub fn client_message(code: u16, error: &AppError) -> (s: String)
    ensures
        s@ == client_message_spec(code, *error),
{
    if 500 <= code && code < 600 {
        match canonical_reason(code) {
            Some(reason) => reason,
            None => plain("Error"),
        }
    } else {
        error.message()
    }
}

/// The body of an error response: the status code and the client message.
pub struct ApiError {
    pub code: u16,
    pub message: String,
}

/// The response body for `error`.
pub fn api_error(error: &AppError) -> (r: ApiError)
    ensures
        r.code == status_of(*error),
        r.message@ == client_message_spec(status_of(*error), *error),
{
    let code = error.status_code();
    ApiError { code, message: client_message(code, error) }
}

/// A server fault never reveals its internal detail: whatever the error,
/// when its status is a 5xx the client message depends on the status alone.
pub proof fn law_server_faults_hide_detail(a: AppError, b: AppError)
    requires
        status_of(a) == status_of(b),
        is_server_error(status_of(a)),
    ensures
        client_message_spec(status_of(a), a) == client_message_spec(status_of(b), b),
{
}

/// A client error is answered with the error's own text.
pub proof fn law_client_errors_keep_text(e: AppError)
    requires
        !is_server_error(status_of(e)),
    ensures
        client_message_spec(status_of(e), e) == error_text(e),
{
}

} // verus!
