//! Responses and their wire format.

use crate::bindings::{bytes_content, bytes_copy, bytes_len, bytes_slice, reason_phrase};
use crate::error::Error;
use crate::http::headers::{
    header_name, is_header_name, is_header_value, is_visible, lemma_decimal_is_visible,
    valid_headers, HeaderMap, HeaderValue,
};
use crate::http::pairs::{lemma_put, put, value_of, Pairs};
use crate::http::status::StatusCode;
use crate::http::request::declared_length;
use crate::text::{
    chars_of, decimal, decimal_string, lemma_decimal_round_trip, push_decimal, same,
};
use vstd::prelude::*;
use vstd::string::StringExecFns;
use vstd::utf8::encode_utf8;

verus! {

/// A response: a status code, headers, and a body or none.
///
/// Wherever `content-length` is set, it is the length of the body.
#[derive(Debug)]
pub struct Response {
    status: StatusCode,
    headers: HeaderMap,
    body: Option<bytes::Bytes>,
}

/// What a response holds.
pub struct ResponseView {
    pub status: u16,
    pub headers: Pairs,
    pub body: Option<Seq<u8>>,
}

/// The number of bytes in a body; none where there is no body.
pub open spec fn body_len(body: Option<Seq<u8>>) -> nat {
    match body {
        Some(bytes) => bytes.len(),
        None => 0,
    }
}

/// `content-length`, where it is set, is the length of the body in decimal.
pub open spec fn length_agrees(headers: Pairs, body: Option<Seq<u8>>) -> bool {
    value_of(headers, "content-length"@) is Some ==> value_of(headers, "content-length"@)
        == Some(decimal(body_len(body)))
}

/// The response with the header `name` set to `value`. Nothing changes where
/// the value or the name is not valid, nor where the header is
/// `content-length` and the value is not the length of the body.
pub open spec fn with_header(r: ResponseView, name: Seq<char>, value: Seq<char>) -> ResponseView {
    if is_header_value(value) && is_header_name(name) && (name == "content-length"@ ==> value
        == decimal(body_len(r.body))) {
        ResponseView { headers: put(r.headers, name, value), ..r }
    } else {
        r
    }
}

/// The response with `bytes` as its body and `content-length` set to match.
pub open spec fn with_body(r: ResponseView, bytes: Seq<u8>) -> ResponseView {
    ResponseView {
        status: r.status,
        headers: put(r.headers, "content-length"@, decimal(bytes.len())),
        body: Some(bytes),
    }
}

/// The response with `text` as its body, encoded in UTF-8, under the content
/// type `kind`.
pub open spec fn with_content(r: ResponseView, kind: Seq<char>, text: Seq<char>) -> ResponseView {
    with_body(
        ResponseView { headers: put(r.headers, "content-type"@, kind), ..r },
        encode_utf8(text),
    )
}

/// An empty response with the given status.
pub open spec fn empty_reply(status: u16) -> ResponseView {
    ResponseView { status, headers: Pairs::empty(), body: None }
}

/// A text response with the given status.
pub open spec fn text_reply(status: u16, text: Seq<char>) -> ResponseView {
    with_content(empty_reply(status), "text/plain"@, text)
}

/// `value` where it is a header value, `fallback` where it is not.
pub open spec fn value_or(value: Seq<char>, fallback: Seq<char>) -> Seq<char> {
    if is_header_value(value) {
        value
    } else {
        fallback
    }
}

/// The reason phrase written after a status code.
pub open spec fn reason_text(code: u16) -> Seq<char> {
    match reason_phrase(code) {
        Some(phrase) => phrase,
        None => "Unknown"@,
    }
}

/// The status line, with its line end.
pub open spec fn status_line(code: u16) -> Seq<char> {
    "HTTP/1.1 "@ + decimal(code as nat) + seq![' '] + reason_text(code) + "\r\n"@
}

/// A header value as it is written: the value itself, or nothing where it is
/// not visible text.
pub open spec fn shown(value: Seq<char>) -> Seq<char> {
    if is_visible(value) {
        value
    } else {
        Seq::empty()
    }
}

/// One header line, with its line end.
pub open spec fn header_line(name: Seq<char>, value: Seq<char>) -> Seq<char> {
    name + ": "@ + shown(value) + "\r\n"@
}

/// The header lines one after another, in the order of the headers.
pub open spec fn header_lines(headers: Pairs) -> Seq<char>
    decreases headers.len(),
{
    if headers.len() == 0 {
        Seq::empty()
    } else {
        header_lines(headers.drop_last()) + header_line(headers.last().0, headers.last().1)
    }
}

/// The head of a response: status line, header lines and the blank line.
pub open spec fn head(code: u16, headers: Pairs) -> Seq<char> {
    status_line(code) + header_lines(headers) + "\r\n"@
}

/// The bytes of a response on the wire: the head in UTF-8, then the body.
pub open spec fn wire(r: ResponseView) -> Seq<u8> {
    encode_utf8(head(r.status, r.headers)) + match r.body {
        Some(bytes) => bytes,
        None => Seq::empty(),
    }
}

/// Content length: once a body is set, `content-length` is the byte count
/// of the body in decimal, and reads back as that count.
pub proof fn lemma_body_declares_its_length(r: ResponseView, bytes: Seq<u8>)
    ensures
        value_of(with_body(r, bytes).headers, "content-length"@) == Some(decimal(bytes.len())),
        length_agrees(with_body(r, bytes).headers, with_body(r, bytes).body),
        bytes.len() <= usize::MAX ==> declared_length(with_body(r, bytes).headers) == Some(
            bytes.len() as usize,
        ),
{
    lemma_put(r.headers, "content-length"@, decimal(bytes.len()));
    lemma_decimal_is_visible(bytes.len());
    lemma_decimal_round_trip(bytes.len());
}

/// Content length: a text, HTML or JSON body declares its length in bytes,
/// which is the length of its UTF-8 form.
pub proof fn lemma_content_declares_its_length(r: ResponseView, kind: Seq<char>, text: Seq<char>)
    ensures
        with_content(r, kind, text).body == Some(encode_utf8(text)),
        value_of(with_content(r, kind, text).headers, "content-length"@) == Some(
            decimal(encode_utf8(text).len()),
        ),
        length_agrees(with_content(r, kind, text).headers, with_content(r, kind, text).body),
{
    lemma_body_declares_its_length(
        ResponseView { headers: put(r.headers, "content-type"@, kind), ..r },
        encode_utf8(text),
    );
}

/// No change of a header makes `content-length` differ from the length of
/// the body.
pub proof fn lemma_header_keeps_length(r: ResponseView, name: Seq<char>, value: Seq<char>)
    requires
        length_agrees(r.headers, r.body),
    ensures
        length_agrees(with_header(r, name, value).headers, with_header(r, name, value).body),
{
    lemma_put(r.headers, name, value);
}

proof fn lemma_known_names()
    ensures
        is_header_name("content-length"@),
        is_header_name("content-type"@),
        is_header_name("content-encoding"@),
        is_header_name("access-control-allow-origin"@),
        is_header_name("access-control-allow-methods"@),
        is_header_name("access-control-allow-headers"@),
        "content-type"@ != "content-length"@,
        "content-encoding"@ != "content-length"@,
        "access-control-allow-origin"@ != "content-length"@,
        "access-control-allow-methods"@ != "content-length"@,
        "access-control-allow-headers"@ != "content-length"@,
{
    reveal_strlit("content-length");
    reveal_strlit("content-type");
    reveal_strlit("content-encoding");
    reveal_strlit("access-control-allow-origin");
    reveal_strlit("access-control-allow-methods");
    reveal_strlit("access-control-allow-headers");
    assert("content-type"@[8] != "content-length"@[8]);
    assert("content-encoding"@[8] != "content-length"@[8]);
}

proof fn lemma_known_values()
    ensures
        is_header_value("text/plain"@),
        is_header_value("text/html"@),
        is_header_value("application/json"@),
        is_header_value("*"@),
        is_header_value("identity"@),
        is_header_value("GET, POST, PUT, DELETE, OPTIONS"@),
        is_header_value("Content-Type, Authorization"@),
{
    reveal_strlit("text/plain");
    reveal_strlit("text/html");
    reveal_strlit("application/json");
    reveal_strlit("*");
    reveal_strlit("identity");
    reveal_strlit("GET, POST, PUT, DELETE, OPTIONS");
    reveal_strlit("Content-Type, Authorization");
}

fn append_bytes(out: &mut Vec<u8>, data: &[u8])
    ensures
        final(out)@ == old(out)@ + data@,
{
    let mut i: usize = 0;
    while i < data.len()
        invariant
            i <= data@.len(),
            out@ == old(out)@ + data@.subrange(0, i as int),
        decreases data@.len() - i,
    {
        out.push(data[i]);
        i += 1;
        assert(data@.subrange(0, i as int) =~= data@.subrange(0, i - 1).push(data@[i - 1]));
        assert(out@ =~= old(out)@ + data@.subrange(0, i as int));
    }
    assert(data@.subrange(0, i as int) =~= data@);
}

impl View for Response {
    type V = ResponseView;

    closed spec fn view(&self) -> ResponseView {
        ResponseView {
            status: self.status.code(),
            headers: self.headers@,
            body: match self.body {
                Some(b) => Some(bytes_content(b)),
                None => None,
            },
        }
    }
}

impl Response {
    #[verifier::type_invariant]
    pub closed spec fn valid(&self) -> bool {
        length_agrees(self@.headers, self@.body)
    }

    /// A response with the given status, no headers and no body.
    pub fn new(status: StatusCode) -> (r: Response)
        ensures
            r@ == (ResponseView { status: status.code(), headers: Pairs::empty(), body: None }),
    {
        Response { status, headers: HeaderMap::new(), body: None }
    }

    /// An empty response with status 200.
    pub fn ok() -> (r: Response)
        ensures
            r@ == (ResponseView { status: 200, headers: Pairs::empty(), body: None }),
    {
        Response::new(StatusCode::from_u16(200).unwrap())
    }

    /// An empty response with status 404.
    pub fn not_found() -> (r: Response)
        ensures
            r@ == (ResponseView { status: 404, headers: Pairs::empty(), body: None }),
    {
        Response::new(StatusCode::from_u16(404).unwrap())
    }

    /// An empty response with status 400.
    pub fn bad_request() -> (r: Response)
        ensures
            r@ == (ResponseView { status: 400, headers: Pairs::empty(), body: None }),
    {
        Response::new(StatusCode::from_u16(400).unwrap())
    }

    /// An empty response with status 500.
    pub fn internal_server_error() -> (r: Response)
        ensures
            r@ == (ResponseView { status: 500, headers: Pairs::empty(), body: None }),
    {
        Response::new(StatusCode::from_u16(500).unwrap())
    }

    /// An empty response with status 201.
    pub fn created() -> (r: Response)
        ensures
            r@ == (ResponseView { status: 201, headers: Pairs::empty(), body: None }),
    {
        Response::new(StatusCode::from_u16(201).unwrap())
    }

    /// An empty response with status 405.
    pub fn method_not_allowed() -> (r: Response)
        ensures
            r@ == (ResponseView { status: 405, headers: Pairs::empty(), body: None }),
    {
        Response::new(StatusCode::from_u16(405).unwrap())
    }

    /// The status code.
    pub fn status(&self) -> (status: StatusCode)
        ensures
            status.code() == self@.status,
    {
        self.status
    }

    /// The headers. They are valid, and `content-length`, where it is set,
    /// is the length of the body.
    pub fn headers(&self) -> (headers: &HeaderMap)
        ensures
            headers@ == self@.headers,
            valid_headers(self@.headers),
            length_agrees(self@.headers, self@.body),
    {
        proof {
            use_type_invariant(self);
        }
        let n = self.headers.len();
        &self.headers
    }

    /// The body, if there is one.
    pub fn body(&self) -> (body: Option<&bytes::Bytes>)
        ensures
            match body {
                Some(b) => self@.body == Some(bytes_content(*b)),
                None => self@.body is None,
            },
    {
        match &self.body {
            Some(b) => Some(b),
            None => None,
        }
    }

    fn body_size(&self) -> (n: usize)
        ensures
            n == body_len(self@.body),
    {
        match &self.body {
            Some(b) => bytes_len(b),
            None => 0,
        }
    }

    /// Puts a header that is known to keep `content-length` true.
    fn set(self, name: &str, value: HeaderValue) -> (r: Response)
        requires
            is_header_name(name@),
            name@ == "content-length"@ ==> value@ == decimal(body_len(self@.body)),
        ensures
            r@ == (ResponseView { headers: put(self@.headers, name@, value@), ..self@ }),
    {
        proof {
            use_type_invariant(&self);
            lemma_put(self@.headers, name@, value@);
        }
        let mut headers = self.headers;
        headers.insert(name, value);
        Response { status: self.status, headers, body: self.body }
    }

    /// Sets the header `name`, which is written in lower case, to `value`.
    /// An invalid name or value changes nothing, and neither does a
    /// `content-length` other than the length of the body.
    pub fn with_header(self, name: &str, value: &str) -> (r: Response)
        ensures
            r@ == with_header(self@, name@, value@),
    {
        match HeaderValue::from_str(value) {
            Some(header_value) => {
                let name_chars = chars_of(name);
                if !header_name(name_chars.as_slice()) {
                    return self;
                }
                let length_name = chars_of("content-length");
                if same(name_chars.as_slice(), length_name.as_slice()) {
                    let actual = decimal_string(self.body_size());
                    let actual_chars = chars_of(actual.as_str());
                    let value_chars = chars_of(value);
                    if !same(value_chars.as_slice(), actual_chars.as_slice()) {
                        return self;
                    }
                }
                self.set(name, header_value)
            },
            None => self,
        }
    }

    /// Sets `content-type`; a type that is no header value is replaced by
    /// `text/plain`.
    pub fn with_content_type(self, content_type: &str) -> (r: Response)
        ensures
            r@ == (ResponseView {
                headers: put(
                    self@.headers,
                    "content-type"@,
                    value_or(content_type@, "text/plain"@),
                ),
                ..self@
            }),
    {
        proof {
            lemma_known_names();
            lemma_known_values();
        }
        let value = match HeaderValue::from_str(content_type) {
            Some(value) => value,
            None => HeaderValue::from_str("text/plain").unwrap(),
        };
        self.set("content-type", value)
    }

    /// Declares the length of the body. A length other than that of the body
    /// changes nothing.
    pub fn with_content_length(self, length: usize) -> (r: Response)
        ensures
            r@ == if length == body_len(self@.body) {
                ResponseView {
                    headers: put(self@.headers, "content-length"@, decimal(length as nat)),
                    ..self@
                }
            } else {
                self@
            },
    {
        if length != self.body_size() {
            return self;
        }
        proof {
            lemma_known_names();
        }
        self.set("content-length", HeaderValue::from_usize(length))
    }

    /// Sets the body, and `content-length` to its length.
    pub fn with_body(self, body: bytes::Bytes) -> (r: Response)
        ensures
            r@ == with_body(self@, bytes_content(body)),
    {
        proof {
            use_type_invariant(&self);
            lemma_known_names();
            lemma_put(
                self@.headers,
                "content-length"@,
                decimal(bytes_content(body).len()),
            );
        }
        let mut headers = self.headers;
        headers.insert("content-length", HeaderValue::from_usize(bytes_len(&body)));
        Response { status: self.status, headers, body: Some(body) }
    }

    fn with_content(self, kind: &str, text: &str) -> (r: Response)
        requires
            is_header_value(kind@),
        ensures
            r@ == with_content(self@, kind@, text@),
    {
        proof {
            lemma_known_names();
        }
        let typed = self.set("content-type", HeaderValue::from_str(kind).unwrap());
        typed.with_body(bytes_copy(text.as_bytes()))
    }

    /// Sets a JSON body from the outcome of encoding a value as JSON: the
    /// JSON text, or the encoder's message, which is passed on as a
    /// `Serialization` error.
    pub fn with_json(self, encoded: Result<String, String>) -> (r: Result<Response, Error>)
        ensures
            match r {
                Ok(response) => encoded is Ok && response@ == with_content(
                    self@,
                    "application/json"@,
                    encoded->Ok_0@,
                ),
                Err(e) => encoded is Err && e is Serialization && e->Serialization_0
                    == encoded->Err_0,
            },
    {
        proof {
            lemma_known_values();
        }
        match encoded {
            Ok(json) => Ok(self.with_content("application/json", json.as_str())),
            Err(message) => Err(Error::Serialization(message)),
        }
    }

    /// Sets a text body, its content type and its length.
    pub fn with_text(self, text: &str) -> (r: Response)
        ensures
            r@ == with_content(self@, "text/plain"@, text@),
    {
        proof {
            lemma_known_values();
        }
        self.with_content("text/plain", text)
    }

    /// Sets an HTML body, its content type and its length.
    pub fn with_html(self, html: &str) -> (r: Response)
        ensures
            r@ == with_content(self@, "text/html"@, html@),
    {
        proof {
            lemma_known_values();
        }
        self.with_content("text/html", html)
    }

    /// Allows cross-origin requests from `origin`, or from anywhere where
    /// `origin` is no header value.
    pub fn with_cors(self, origin: &str) -> (r: Response)
        ensures
            r@ == (ResponseView {
                headers: put(
                    put(
                        put(
                            self@.headers,
                            "access-control-allow-origin"@,
                            value_or(origin@, "*"@),
                        ),
                        "access-control-allow-methods"@,
                        "GET, POST, PUT, DELETE, OPTIONS"@,
                    ),
                    "access-control-allow-headers"@,
                    "Content-Type, Authorization"@,
                ),
                ..self@
            }),
    {
        proof {
            lemma_known_names();
            lemma_known_values();
        }
        let allowed = match HeaderValue::from_str(origin) {
            Some(value) => value,
            None => HeaderValue::from_str("*").unwrap(),
        };
        let r1 = self.set("access-control-allow-origin", allowed);
        let r2 = r1.set(
            "access-control-allow-methods",
            HeaderValue::from_str("GET, POST, PUT, DELETE, OPTIONS").unwrap(),
        );
        r2.set(
            "access-control-allow-headers",
            HeaderValue::from_str("Content-Type, Authorization").unwrap(),
        )
    }

    /// Sets `content-encoding`; an encoding that is no header value is
    /// replaced by `identity`.
    pub fn with_compression(self, encoding: &str) -> (r: Response)
        ensures
            r@ == (ResponseView {
                headers: put(
                    self@.headers,
                    "content-encoding"@,
                    value_or(encoding@, "identity"@),
                ),
                ..self@
            }),
    {
        proof {
            lemma_known_names();
            lemma_known_values();
        }
        let value = match HeaderValue::from_str(encoding) {
            Some(value) => value,
            None => HeaderValue::from_str("identity").unwrap(),
        };
        self.set("content-encoding", value)
    }

    /// The response as it goes on the wire.
    pub fn to_bytes(&self) -> (bytes: Vec<u8>)
        ensures
            bytes@ == wire(self@),
    {
        let mut text = String::new();
        text.append("HTTP/1.1 ");
        push_decimal(&mut text, self.status.as_u16() as u64);
        text.push(' ');
        match self.status.canonical_reason() {
            Some(phrase) => text.append(phrase),
            None => text.append("Unknown"),
        }
        text.append("\r\n");
        assert(text@ =~= status_line(self@.status));
        let n = self.headers.len();
        let mut i: usize = 0;
        while i < n
            invariant
                i <= n,
                n == self@.headers.len(),
                text@ == status_line(self@.status) + header_lines(
                    self@.headers.subrange(0, i as int),
                ),
            decreases n - i,
        {
            let ghost before = text@;
            text.append(self.headers.name_at(i));
            text.append(": ");
            match self.headers.value_at(i).to_str() {
                Some(value) => text.append(value),
                None => {},
            }
            text.append("\r\n");
            proof {
                let done = self@.headers.subrange(0, i + 1);
                assert(done.drop_last() =~= self@.headers.subrange(0, i as int));
                assert(done.last() == self@.headers[i as int]);
                assert(text@ =~= before + header_line(
                    self@.headers[i as int].0,
                    self@.headers[i as int].1,
                ));
                assert(text@ =~= status_line(self@.status) + header_lines(done));
            }
            i += 1;
        }
        assert(self@.headers.subrange(0, n as int) =~= self@.headers);
        text.append("\r\n");
        assert(text@ =~= head(self@.status, self@.headers));
        let mut bytes = text.as_str().as_bytes_vec();
        match &self.body {
            Some(b) => append_bytes(&mut bytes, bytes_slice(b)),
            None => {
                assert(bytes@ =~= wire(self@));
            },
        }
        bytes
    }
}

impl Clone for Response {
    fn clone(&self) -> (copy: Response)
        ensures
            copy@ == self@,
    {
        proof {
            use_type_invariant(self);
        }
        let body = match &self.body {
            Some(b) => Some(bytes_copy(bytes_slice(b))),
            None => None,
        };
        Response { status: self.status, headers: self.headers.clone(), body }
    }
}

impl Default for Response {
    fn default() -> (r: Response)
        ensures
            r@ == (ResponseView { status: 200, headers: Pairs::empty(), body: None }),
    {
        Response::ok()
    }
}

} // verus!
