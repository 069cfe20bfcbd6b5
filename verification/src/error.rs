//! The failures that the server can report, and the status code that each
//! one is answered with.

use crate::http::status::StatusCode;
use vstd::prelude::*;

verus! {

/// A failure while framing, routing or answering a request.
///
/// A variant that stands for a failure inside another library carries that
/// library's message as text, except where this crate receives the error
/// value itself.
#[derive(Debug)]
pub enum Error {
    Io(String),
    Http(String),
    Parse(String),
    Config(String),
    RouteNotFound(String),
    MethodNotAllowed(String),
    BadRequest(String),
    Internal(String),
    FileNotFound(String),
    PermissionDenied(String),
    InvalidPath(String),
    ContentTooLarge(usize),
    UnsupportedEncoding(String),
    Serialization(String),
    UrlParse(String),
    Regex(String),
    ConfigError(String),
    InvalidMethod(String),
    InvalidUri(::http::uri::InvalidUri),
}

/// The status code that answers each failure.
pub open spec fn status_of(err: Error) -> u16 {
    match err {
        Error::RouteNotFound(_) => 404,
        Error::MethodNotAllowed(_) => 405,
        Error::BadRequest(_) => 400,
        Error::FileNotFound(_) => 404,
        Error::PermissionDenied(_) => 403,
        Error::InvalidPath(_) => 400,
        Error::ContentTooLarge(_) => 413,
        Error::UnsupportedEncoding(_) => 415,
        _ => 500,
    }
}

impl Error {
    /// The status code that answers this failure.
    pub fn status_code(&self) -> (status: StatusCode)
        ensures
            status == StatusCode::of(status_of(*self)),
            status.code() == status_of(*self),
    {
        let code: u16 = match self {
            Error::RouteNotFound(_) => 404,
            Error::MethodNotAllowed(_) => 405,
            Error::BadRequest(_) => 400,
            Error::FileNotFound(_) => 404,
            Error::PermissionDenied(_) => 403,
            Error::InvalidPath(_) => 400,
            Error::ContentTooLarge(_) => 413,
            Error::UnsupportedEncoding(_) => 415,
            _ => 500,
        };
        StatusCode::from_u16(code).unwrap()
    }
}

impl From<Error> for StatusCode {
    fn from(err: Error) -> (status: StatusCode) {
        err.status_code()
    }
}

impl vstd::std_specs::convert::FromSpecImpl<Error> for StatusCode {
    open spec fn obeys_from_spec() -> bool {
        true
    }

    open spec fn from_spec(err: Error) -> StatusCode {
        StatusCode::of(status_of(err))
    }
}

} // verus!
