//! Requests.

use crate::bindings::{bytes_content, bytes_slice, from_utf8_lossy, lossy_text};
use crate::error::Error;
use crate::http::headers::{is_visible, HeaderMap, HeaderValue};
use crate::http::method::{Method, Version};
use crate::http::pairs::{value_of, Pairs};
use crate::http::params::Params;
use crate::http::uri::Uri;
use crate::text::{ascii_lower, chars_of, contains, occurs_in, parse_decimal, parse_usize};
use vstd::prelude::*;

verus! {

/// A request as the connection pipeline frames it and the router hands it to
/// a handler.
#[derive(Debug, Clone)]
pub struct Request {
    pub method: Method,
    pub uri: Uri,
    pub version: Version,
    pub headers: HeaderMap,
    pub body: Option<bytes::Bytes>,
    pub params: Params,
}

/// What a request holds.
pub struct RequestView {
    pub method: Seq<char>,
    pub path: Seq<char>,
    pub query: Option<Seq<char>>,
    pub version: Version,
    pub headers: Pairs,
    pub body: Option<Seq<u8>>,
    pub params: Pairs,
}

impl View for Request {
    type V = RequestView;

    open spec fn view(&self) -> RequestView {
        RequestView {
            method: self.method.name(),
            path: self.uri.path_text(),
            query: self.uri.query_text(),
            version: self.version,
            headers: self.headers@,
            body: body_bytes(self.body),
            params: self.params@,
        }
    }
}

/// The header `name` as text: its value, if the header is set and all of its
/// value is visible.
pub open spec fn header_text(headers: Pairs, name: Seq<char>) -> Option<Seq<char>> {
    match value_of(headers, name) {
        Some(value) if is_visible(value) => Some(value),
        _ => None,
    }
}

/// The length that the headers declare for the body: the number written in
/// `content-length`, if that header is set and holds a number that fits.
pub open spec fn declared_length(headers: Pairs) -> Option<usize> {
    match header_text(headers, "content-length"@) {
        Some(text) => match parse_decimal(text) {
            Some(n) if n <= usize::MAX => Some(n as usize),
            _ => None,
        },
        None => None,
    }
}

/// The bytes of an optional body.
pub open spec fn body_bytes(body: Option<bytes::Bytes>) -> Option<Seq<u8>> {
    match body {
        Some(b) => Some(bytes_content(b)),
        None => None,
    }
}

proof fn lemma_lower_names()
    ensures
        ascii_lower("content-length"@) == "content-length"@,
        ascii_lower("content-type"@) == "content-type"@,
        ascii_lower("user-agent"@) == "user-agent"@,
        ascii_lower("accept-encoding"@) == "accept-encoding"@,
{
    reveal_strlit("content-length");
    reveal_strlit("content-type");
    reveal_strlit("user-agent");
    reveal_strlit("accept-encoding");
    assert(ascii_lower("content-length"@) =~= "content-length"@);
    assert(ascii_lower("content-type"@) =~= "content-type"@);
    assert(ascii_lower("user-agent"@) =~= "user-agent"@);
    assert(ascii_lower("accept-encoding"@) =~= "accept-encoding"@);
}

impl Request {
    /// A request without headers, body or parameters.
    pub fn new(method: Method, uri: Uri, version: Version) -> (request: Request)
        ensures
            request.method == method,
            request.uri == uri,
            request.version == version,
            request.headers@ == Pairs::empty(),
            request.body is None,
            request.params@ == Pairs::empty(),
    {
        Request {
            method,
            uri,
            version,
            headers: HeaderMap::new(),
            body: None,
            params: Params::new(),
        }
    }

    /// The path of the request target.
    pub fn path(&self) -> (path: &str)
        ensures
            path@ == self.uri.path_text(),
    {
        self.uri.path()
    }

    /// The query of the request target, if it has one.
    pub fn query(&self) -> (query: Option<&str>)
        ensures
            match query {
                Some(q) => self.uri.query_text() == Some(q@),
                None => self.uri.query_text() is None,
            },
    {
        self.uri.query()
    }

    /// Looks a header up by name, without regard to the case of ASCII
    /// letters.
    pub fn header(&self, name: &str) -> (r: Option<&HeaderValue>)
        ensures
            match r {
                Some(value) => value_of(self.headers@, ascii_lower(name@)) == Some(value@),
                None => value_of(self.headers@, ascii_lower(name@)) is None,
            },
    {
        self.headers.get(name)
    }

    fn text_of(&self, name: &str) -> (r: Option<&str>)
        requires
            ascii_lower(name@) == name@,
        ensures
            match r {
                Some(text) => header_text(self.headers@, name@) == Some(text@),
                None => header_text(self.headers@, name@) is None,
            },
    {
        match self.headers.get(name) {
            Some(value) => value.to_str(),
            None => None,
        }
    }

    /// The length that the request declares for its body. A missing header
    /// and one that holds no number both give `None`.
    pub fn content_length(&self) -> (r: Option<usize>)
        ensures
            r == declared_length(self.headers@),
    {
        proof {
            lemma_lower_names();
        }
        match self.text_of("content-length") {
            Some(text) => {
                let chars = chars_of(text);
                parse_usize(chars.as_slice())
            },
            None => None,
        }
    }

    /// The `content-type` header as text.
    pub fn content_type(&self) -> (r: Option<&str>)
        ensures
            match r {
                Some(text) => header_text(self.headers@, "content-type"@) == Some(text@),
                None => header_text(self.headers@, "content-type"@) is None,
            },
    {
        proof {
            lemma_lower_names();
        }
        self.text_of("content-type")
    }

    /// The `user-agent` header as text.
    pub fn user_agent(&self) -> (r: Option<&str>)
        ensures
            match r {
                Some(text) => header_text(self.headers@, "user-agent"@) == Some(text@),
                None => header_text(self.headers@, "user-agent"@) is None,
            },
    {
        proof {
            lemma_lower_names();
        }
        self.text_of("user-agent")
    }

    /// The `accept-encoding` header as text.
    pub fn accept_encoding(&self) -> (r: Option<&str>)
        ensures
            match r {
                Some(text) => header_text(self.headers@, "accept-encoding"@) == Some(text@),
                None => header_text(self.headers@, "accept-encoding"@) is None,
            },
    {
        proof {
            lemma_lower_names();
        }
        self.text_of("accept-encoding")
    }

    /// Whether `accept-encoding` is set and mentions `gzip`.
    pub fn supports_gzip(&self) -> (r: bool)
        ensures
            r == match header_text(self.headers@, "accept-encoding"@) {
                Some(text) => occurs_in("gzip"@, text),
                None => false,
            },
    {
        match self.accept_encoding() {
            Some(encoding) => {
                let text = chars_of(encoding);
                let gzip = chars_of("gzip");
                contains(text.as_slice(), gzip.as_slice())
            },
            None => false,
        }
    }

    /// The body read as UTF-8 text, malformed sequences replaced.
    pub fn body_as_string(&self) -> (r: Option<String>)
        ensures
            match r {
                Some(text) => self.body is Some && text@ == lossy_text(
                    bytes_content(self.body->Some_0),
                ),
                None => self.body is None,
            },
    {
        match &self.body {
            Some(b) => Some(from_utf8_lossy(bytes_slice(b))),
            None => None,
        }
    }

    /// The text of a JSON body, for the caller to decode. A request without
    /// a body is a `BadRequest`.
    pub fn body_as_json(&self) -> (r: Result<String, Error>)
        ensures
            match r {
                Ok(text) => self.body is Some && text@ == lossy_text(
                    bytes_content(self.body->Some_0),
                ),
                Err(e) => self.body is None && e is BadRequest && e->BadRequest_0@
                    == "Request body is required for JSON parsing"@,
            },
    {
        match self.body_as_string() {
            Some(text) => Ok(text),
            None => Err(
                Error::BadRequest("Request body is required for JSON parsing".to_owned()),
            ),
        }
    }
}

} // verus!
