//! Framing: finding one complete request in the bytes received so far.
//!
//! A request is its request line, header lines, a blank line, and as many
//! body bytes as `content-length` declares. Lines end with a line feed; any
//! carriage returns before it are not part of the line. Nothing is read
//! from a buffer until the blank line is in it.

use crate::bindings::{bytes_copy, uri_parts};
use crate::error::Error;
use crate::http::headers::{header_name, is_header_name, is_header_value, HeaderMap, HeaderValue};
use crate::http::method::{is_token, Method, Version};
use crate::http::pairs::{put, Pairs};
use crate::http::request::{declared_length, Request, RequestView};
use crate::http::uri::Uri;
use crate::text::{
    ascii_lower, chars_of, find, position, split_words, string_of, strip_trailing, to_ascii_lower,
    trim, trimmed, without_trailing, words,
};
use vstd::prelude::*;
use vstd::utf8::{decode_utf8, encode_utf8_decode_utf8, valid_utf8};

verus! {

/// The position of the first line feed in `s`, or the length of `s` if it
/// has none.
pub open spec fn newline_at(s: Seq<u8>) -> int
    decreases s.len(),
{
    if s.len() == 0 || s[0] == 10 {
        0
    } else {
        1 + newline_at(s.drop_first())
    }
}

/// `newline_at` is the place of the first line feed.
pub proof fn lemma_newline_at(s: Seq<u8>)
    ensures
        0 <= newline_at(s) <= s.len(),
        forall|k: int| 0 <= k < newline_at(s) ==> s[k] != 10,
        newline_at(s) < s.len() ==> s[newline_at(s)] == 10,
    decreases s.len(),
{
    if s.len() == 0 || s[0] == 10 {
    } else {
        let rest = s.drop_first();
        lemma_newline_at(rest);
        assert forall|k: int| 0 <= k < newline_at(s) implies s[k] != 10 by {
            if k > 0 {
                assert(s[k] == rest[k - 1]);
            }
        }
        if newline_at(rest) < rest.len() {
            assert(s[newline_at(s)] == rest[newline_at(rest)]);
        }
    }
}

/// A place with a line feed and none before it is what `newline_at` gives.
pub proof fn lemma_newline_at_is(s: Seq<u8>, i: int)
    requires
        0 <= i <= s.len(),
        forall|k: int| 0 <= k < i ==> s[k] != 10,
        i < s.len() ==> s[i] == 10,
    ensures
        newline_at(s) == i,
{
    lemma_newline_at(s);
}

/// Whether `s` begins with a complete line.
pub open spec fn has_line(s: Seq<u8>) -> bool {
    newline_at(s) < s.len()
}

/// The first line of `s`, without its line feed.
pub open spec fn first_line(s: Seq<u8>) -> Seq<u8> {
    s.subrange(0, newline_at(s))
}

/// What follows the first line of `s`.
pub open spec fn after_first_line(s: Seq<u8>) -> Seq<u8> {
    s.subrange(newline_at(s) + 1, s.len() as int)
}

/// A blank line: nothing but carriage returns before the line feed.
pub open spec fn is_blank(line: Seq<u8>) -> bool {
    forall|i: int| 0 <= i < line.len() ==> #[trigger] line[i] == 13
}

/// The lines of `s` before its first blank line, or `None` if `s` holds no
/// complete blank line.
pub open spec fn head_lines(s: Seq<u8>) -> Option<Seq<Seq<u8>>>
    decreases s.len(),
{
    if !has_line(s) {
        None
    } else if is_blank(first_line(s)) {
        Some(Seq::empty())
    } else {
        proof {
            lemma_newline_at(s);
        }
        match head_lines(after_first_line(s)) {
            Some(rest) => Some(seq![first_line(s)] + rest),
            None => None,
        }
    }
}

/// The number of bytes of `s` through its first blank line, where it has
/// one.
pub open spec fn head_size(s: Seq<u8>) -> int
    decreases s.len(),
{
    if !has_line(s) {
        0
    } else if is_blank(first_line(s)) {
        newline_at(s) + 1
    } else {
        proof {
            lemma_newline_at(s);
        }
        newline_at(s) + 1 + head_size(after_first_line(s))
    }
}

/// The text of a line: its bytes read as UTF-8, without trailing carriage
/// returns.
pub open spec fn line_text(line: Seq<u8>) -> Seq<char> {
    strip_trailing(decode_utf8(line), '\r')
}

/// The header that a line sets: the name before the first colon, trimmed
/// and in lower case, with the trimmed rest as its value. A line without a
/// colon sets none, nor does one whose name or value is not valid.
pub open spec fn header_of(text: Seq<char>) -> Option<(Seq<char>, Seq<char>)> {
    let colon = position(text, ':');
    if colon < text.len() {
        let name = ascii_lower(trim(text.subrange(0, colon)));
        let value = trim(text.subrange(colon + 1, text.len() as int));
        if is_header_value(value) && is_header_name(name) {
            Some((name, value))
        } else {
            None
        }
    } else {
        None
    }
}

/// The headers that a run of lines sets; of two lines that set the same
/// header the later one counts.
pub open spec fn headers_of(lines: Seq<Seq<u8>>) -> Pairs
    decreases lines.len(),
{
    if lines.len() == 0 {
        Pairs::empty()
    } else {
        let earlier = headers_of(lines.drop_last());
        match header_of(line_text(lines.last())) {
            Some(header) => put(earlier, header.0, header.1),
            None => earlier,
        }
    }
}

/// Whether every line is well-formed UTF-8.
pub open spec fn all_utf8(lines: Seq<Seq<u8>>) -> bool {
    forall|i: int| 0 <= i < lines.len() ==> valid_utf8(#[trigger] lines[i])
}

/// What can be wrong with the head of a request.
pub enum Fault {
    /// The request line is not UTF-8.
    RequestLineEncoding,
    /// The request line is not made of three words.
    RequestLineShape,
    /// The first word is no method.
    Method,
    /// The second word is no request target.
    Target,
    /// The third word is neither `HTTP/1.0` nor `HTTP/1.1`.
    Version,
    /// A header line is not UTF-8.
    HeaderEncoding,
}

/// The first thing wrong with a request line, if anything is.
pub open spec fn request_line_fault(line: Seq<u8>) -> Option<Fault> {
    let parts = words(line_text(line));
    if !valid_utf8(line) {
        Some(Fault::RequestLineEncoding)
    } else if parts.len() != 3 {
        Some(Fault::RequestLineShape)
    } else if !is_token(parts[0]) {
        Some(Fault::Method)
    } else if uri_parts(parts[1]) is None {
        Some(Fault::Target)
    } else if parts[2] != "HTTP/1.0"@ && parts[2] != "HTTP/1.1"@ {
        Some(Fault::Version)
    } else {
        None
    }
}

/// The version that a well-formed request line names.
pub open spec fn version_of(word: Seq<char>) -> Version {
    if word == "HTTP/1.0"@ {
        Version::HTTP_10
    } else {
        Version::HTTP_11
    }
}

/// What the bytes received so far amount to.
pub enum Framing {
    /// No complete request yet: more bytes are needed.
    Incomplete,
    /// The head is complete and malformed.
    Malformed(Fault),
    /// A complete request.
    Complete(RequestView),
}

/// The request that a well-formed head makes, with the given body.
pub open spec fn framed(
    request_line: Seq<u8>,
    headers: Pairs,
    body: Option<Seq<u8>>,
) -> RequestView {
    let parts = words(line_text(request_line));
    RequestView {
        method: parts[0],
        path: uri_parts(parts[1])->Some_0.0,
        query: uri_parts(parts[1])->Some_0.1,
        version: version_of(parts[2]),
        headers,
        body,
        params: Pairs::empty(),
    }
}

/// Frames the bytes received so far. Without a blank line the request is
/// incomplete, whatever the bytes are. With one, the head is read: a
/// malformed head is reported, the request line before the headers. A
/// well-formed head that declares a length is complete once that many bytes
/// follow the blank line, and they are its body; one that declares none is
/// complete without a body.
pub open spec fn frame(buffer: Seq<u8>) -> Framing {
    if !has_line(buffer) {
        Framing::Incomplete
    } else {
        match head_lines(after_first_line(buffer)) {
            None => Framing::Incomplete,
            Some(lines) => {
                let headers = headers_of(lines);
                let body_start = newline_at(buffer) + 1 + head_size(after_first_line(buffer));
                if request_line_fault(first_line(buffer)) is Some {
                    Framing::Malformed(request_line_fault(first_line(buffer))->Some_0)
                } else if !all_utf8(lines) {
                    Framing::Malformed(Fault::HeaderEncoding)
                } else {
                    match declared_length(headers) {
                        Some(length) => {
                            if body_start + length <= buffer.len() {
                                Framing::Complete(
                                    framed(
                                        first_line(buffer),
                                        headers,
                                        Some(buffer.subrange(body_start, body_start + length)),
                                    ),
                                )
                            } else {
                                Framing::Incomplete
                            }
                        },
                        None => Framing::Complete(framed(first_line(buffer), headers, None)),
                    }
                }
            },
        }
    }
}

/// How each fault is reported.
pub open spec fn reports(e: Error, fault: Fault) -> bool {
    match fault {
        Fault::RequestLineEncoding => e is Parse && e->Parse_0@ == "Invalid UTF-8"@,
        Fault::RequestLineShape => e is Parse && e->Parse_0@ == "Invalid request line"@,
        Fault::Method => e is InvalidMethod,
        Fault::Target => e is InvalidUri,
        Fault::Version => e is Parse && e->Parse_0@ == "Unsupported HTTP version"@,
        Fault::HeaderEncoding => e is Parse && e->Parse_0@ == "Invalid UTF-8 in headers"@,
    }
}

/// A declared body that has not arrived in full is never framed: while
/// fewer bytes follow the head than `content-length` declares, the request
/// stays incomplete.
pub proof fn lemma_short_body_is_incomplete(buffer: Seq<u8>)
    requires
        has_line(buffer),
        head_lines(after_first_line(buffer)) is Some,
        request_line_fault(first_line(buffer)) is None,
        all_utf8(head_lines(after_first_line(buffer))->Some_0),
        declared_length(headers_of(head_lines(after_first_line(buffer))->Some_0)) is Some,
        buffer.len() < newline_at(buffer) + 1 + head_size(after_first_line(buffer))
            + declared_length(headers_of(head_lines(after_first_line(buffer))->Some_0))->Some_0,
    ensures
        frame(buffer) is Incomplete,
{
}

/// A body is framed exactly as long as declared: the body of a complete
/// request has the declared length, and a request without a declared length
/// has no body.
pub proof fn lemma_body_has_declared_length(buffer: Seq<u8>)
    requires
        frame(buffer) is Complete,
    ensures
        match declared_length(frame(buffer)->Complete_0.headers) {
            Some(length) => frame(buffer)->Complete_0.body is Some && frame(
                buffer,
            )->Complete_0.body->Some_0.len() == length,
            None => frame(buffer)->Complete_0.body is None,
        },
{
    lemma_newline_at(buffer);
    lemma_head_size(after_first_line(buffer));
}

/// The head is part of the bytes it is found in.
pub proof fn lemma_head_size(s: Seq<u8>)
    ensures
        0 <= head_size(s) <= s.len(),
    decreases s.len(),
{
    lemma_newline_at(s);
    if has_line(s) && !is_blank(first_line(s)) {
        lemma_head_size(after_first_line(s));
    }
}

fn find_newline(buffer: &[u8], from: usize) -> (r: Option<usize>)
    requires
        from <= buffer@.len(),
    ensures
        match r {
            Some(end) => from <= end < buffer@.len() && newline_at(
                buffer@.subrange(from as int, buffer@.len() as int),
            ) == end - from,
            None => !has_line(buffer@.subrange(from as int, buffer@.len() as int)),
        },
{
    let ghost rest = buffer@.subrange(from as int, buffer@.len() as int);
    let mut i: usize = from;
    while i < buffer.len()
        invariant
            from <= i <= buffer@.len(),
            rest == buffer@.subrange(from as int, buffer@.len() as int),
            forall|k: int| 0 <= k < i - from ==> rest[k] != 10,
        decreases buffer@.len() - i,
    {
        if buffer[i] == 10 {
            proof {
                lemma_newline_at_is(rest, i - from);
            }
            return Some(i);
        }
        i += 1;
    }
    proof {
        lemma_newline_at_is(rest, i - from);
    }
    None
}

fn blank(line: &[u8]) -> (r: bool)
    ensures
        r == is_blank(line@),
{
    let mut i: usize = 0;
    while i < line.len()
        invariant
            i <= line@.len(),
            forall|k: int| 0 <= k < i ==> #[trigger] line@[k] == 13,
        decreases line@.len() - i,
    {
        if line[i] != 13 {
            return false;
        }
        i += 1;
    }
    true
}

/// Reads one header line, given without its trailing carriage returns.
pub fn parse_header_line(text: &[char]) -> (r: Option<(String, HeaderValue)>)
    ensures
        match r {
            Some(header) => header_of(text@) == Some((header.0@, header.1@)),
            None => header_of(text@) is None,
        },
{
    match find(text, ':') {
        Some(colon) => {
            let end = text.len();
            let name = to_ascii_lower(trimmed(&text[0..colon]));
            let value_text = string_of(trimmed(&text[colon + 1..end]));
            match HeaderValue::from_str(value_text.as_str()) {
                Some(value) => {
                    if header_name(name.as_slice()) {
                        Some((string_of(name.as_slice()), value))
                    } else {
                        None
                    }
                },
                None => None,
            }
        },
        None => None,
    }
}

/// Reads a request line: method, target and version.
pub fn parse_request_line(line: &[u8]) -> (r: Result<(Method, Uri, Version), Error>)
    ensures
        match r {
            Ok(start) => {
                let parts = words(line_text(line@));
                &&& request_line_fault(line@) is None
                &&& start.0.name() == parts[0]
                &&& uri_parts(parts[1]) == Some((start.1.path_text(), start.1.query_text()))
                &&& start.2 == version_of(parts[2])
            },
            Err(e) => request_line_fault(line@) is Some && reports(
                e,
                request_line_fault(line@)->Some_0,
            ),
        },
{
    let text = match core::str::from_utf8(line) {
        Ok(text) => text,
        Err(_) => {
            return Err(Error::Parse("Invalid UTF-8".to_owned()));
        },
    };
    proof {
        encode_utf8_decode_utf8(text@);
    }
    let chars = chars_of(text);
    let parts = split_words(without_trailing(chars.as_slice(), '\r'));
    if parts.len() != 3 {
        return Err(Error::Parse("Invalid request line".to_owned()));
    }
    let method_text = string_of(parts[0]);
    let method = match Method::parse(method_text.as_str()) {
        Some(method) => method,
        None => {
            return Err(Error::InvalidMethod(method_text));
        },
    };
    let target = string_of(parts[1]);
    let uri = match Uri::parse(target.as_str()) {
        Ok(uri) => uri,
        Err(e) => {
            return Err(e);
        },
    };
    let version = match Version::parse(parts[2]) {
        Some(version) => version,
        None => {
            return Err(Error::Parse("Unsupported HTTP version".to_owned()));
        },
    };
    proof {
        reveal_strlit("HTTP/1.0");
        reveal_strlit("HTTP/1.1");
        assert("HTTP/1.0"@[7] != "HTTP/1.1"@[7]);
    }
    Ok((method, uri, version))
}

/// Frames the bytes received so far: `Ok(None)` while the request is not
/// complete, the request once it is, and an error for a complete head that
/// is malformed.
pub fn parse_request(buffer: &[u8]) -> (r: Result<Option<Request>, Error>)
    ensures
        match frame(buffer@) {
            Framing::Incomplete => r is Ok && r->Ok_0 is None,
            Framing::Malformed(fault) => r is Err && reports(r->Err_0, fault),
            Framing::Complete(request) => r is Ok && r->Ok_0 is Some && r->Ok_0->Some_0@
                == request,
        },
{
    let size = buffer.len();
    assert(buffer@.subrange(0, size as int) =~= buffer@);
    let first_end = match find_newline(buffer, 0) {
        Some(end) => end,
        None => {
            return Ok(None);
        },
    };
    let ghost rest = after_first_line(buffer@);
    let mut headers = HeaderMap::new();
    let mut readable = true;
    let mut pos: usize = first_end + 1;
    let mut body_start: usize = pos;
    let ghost mut lines: Seq<Seq<u8>> = Seq::empty();
    assert(Seq::<Seq<u8>>::empty() + Seq::<Seq<u8>>::empty() =~= Seq::<Seq<u8>>::empty());
    loop
        invariant_except_break
            first_end + 1 <= pos <= size,
            head_lines(rest) == match head_lines(buffer@.subrange(pos as int, size as int)) {
                Some(later) => Some(lines + later),
                None => None,
            },
            head_size(rest) == (pos - first_end - 1) + head_size(
                buffer@.subrange(pos as int, size as int),
            ),
        invariant
            size == buffer@.len(),
            first_end < size,
            newline_at(buffer@) == first_end,
            rest == after_first_line(buffer@),
            readable == all_utf8(lines),
            readable ==> headers@ == headers_of(lines),
        ensures
            head_lines(rest) == Some(lines),
            body_start == first_end + 1 + head_size(rest),
            body_start <= size,
        decreases size - pos,
    {
        let ghost suffix = buffer@.subrange(pos as int, size as int);
        let end = match find_newline(buffer, pos) {
            Some(end) => end,
            None => {
                return Ok(None);
            },
        };
        let line = &buffer[pos..end];
        assert(line@ =~= first_line(suffix));
        assert(after_first_line(suffix) =~= buffer@.subrange(end + 1, size as int));
        if blank(line) {
            body_start = end + 1;
            assert(lines + Seq::<Seq<u8>>::empty() =~= lines);
            break;
        }
        match core::str::from_utf8(line) {
            Ok(text) => {
                if readable {
                    proof {
                        encode_utf8_decode_utf8(text@);
                    }
                    let chars = chars_of(text);
                    match parse_header_line(without_trailing(chars.as_slice(), '\r')) {
                        Some(header) => {
                            headers.insert(header.0.as_str(), header.1);
                        },
                        None => {},
                    }
                }
            },
            Err(_) => {
                readable = false;
            },
        }
        proof {
            let longer = lines.push(line@);
            assert(longer.drop_last() =~= lines);
            assert(longer.last() == line@);
            assert(all_utf8(longer) == (all_utf8(lines) && valid_utf8(line@))) by {
                if all_utf8(lines) && valid_utf8(line@) {
                    assert forall|i: int| 0 <= i < longer.len() implies valid_utf8(
                        #[trigger] longer[i],
                    ) by {
                        if i < lines.len() {
                            assert(longer[i] == lines[i]);
                        }
                    }
                }
                if all_utf8(longer) {
                    assert(valid_utf8(longer[lines.len() as int]));
                    assert forall|i: int| 0 <= i < lines.len() implies valid_utf8(
                        #[trigger] lines[i],
                    ) by {
                        assert(longer[i] == lines[i]);
                    }
                }
            }
            match head_lines(after_first_line(suffix)) {
                Some(later) => {
                    assert(longer + later =~= lines + (seq![line@] + later));
                },
                None => {},
            }
            lines = longer;
        }
        pos = end + 1;
    }
    let start = match parse_request_line(&buffer[0..first_end]) {
        Ok(start) => start,
        Err(e) => {
            return Err(e);
        },
    };
    if !readable {
        return Err(Error::Parse("Invalid UTF-8 in headers".to_owned()));
    }
    let mut request = Request::new(start.0, start.1, start.2);
    request.headers = headers;
    match request.content_length() {
        Some(length) => {
            if size - body_start < length {
                return Ok(None);
            }
            request.body = Some(bytes_copy(&buffer[body_start..body_start + length]));
        },
        None => {},
    }
    Ok(Some(request))
}

} // verus!
