//! Contracts for the functions of other crates and of the standard library
//! that the server calls. Nothing in this file is proved: each contract
//! restates what the called function documents, or gives its result a name
//! where the documentation is too long to restate.

use vstd::prelude::*;
use vstd::string::StringSliceAdditionalSpecFns;
use vstd::utf8::valid_utf8;

verus! {

/// `String::push` appends one character to the end of the string.
pub assume_specification[ String::push ](s: &mut String, c: char)
    ensures
        final(s)@ == old(s)@.push(c),
;

/// `core::str::Utf8Error`, carried through as it is.
#[verifier::external_type_specification]
#[verifier::external_body]
pub struct ExUtf8Error(core::str::Utf8Error);

/// `core::str::from_utf8` succeeds exactly on well-formed UTF-8, and the
/// string it returns consists of the bytes it was given.
pub assume_specification[ core::str::from_utf8 ](v: &[u8]) -> (r: Result<
    &str,
    core::str::Utf8Error,
>)
    ensures
        r is Ok <==> valid_utf8(v@),
        r matches Ok(s) ==> s.spec_bytes() == v@,
;

/// The lower-case form that `str::to_lowercase` gives a string, following
/// the Unicode case mappings.
pub uninterp spec fn lowercase(s: Seq<char>) -> Seq<char>;

/// `str::to_lowercase`.
#[verifier::external_body]
pub(crate) fn to_lowercase(s: &str) -> (r: String)
    ensures
        r@ == lowercase(s@),
{
    s.to_lowercase()
}

/// The text that `String::from_utf8_lossy` reads from bytes: the decoded
/// characters, with U+FFFD in place of each malformed sequence.
pub uninterp spec fn lossy_text(bytes: Seq<u8>) -> Seq<char>;

/// `String::from_utf8_lossy`.
#[verifier::external_body]
pub(crate) fn from_utf8_lossy(bytes: &[u8]) -> (r: String)
    ensures
        r@ == lossy_text(bytes@),
{
    String::from_utf8_lossy(bytes).into_owned()
}

/// `bytes::Bytes`, a buffer of bytes; what it holds is `bytes_content`.
#[verifier::external_type_specification]
#[verifier::external_body]
pub struct ExBytes(bytes::Bytes);

/// The bytes that a `bytes::Bytes` buffer holds.
pub uninterp spec fn bytes_content(b: bytes::Bytes) -> Seq<u8>;

/// `Bytes::copy_from_slice` makes a buffer holding a copy of `data`.
#[verifier::external_body]
pub(crate) fn bytes_copy(data: &[u8]) -> (b: bytes::Bytes)
    ensures
        bytes_content(b) == data@,
{
    bytes::Bytes::copy_from_slice(data)
}

/// `Bytes::len` is the number of bytes held.
#[verifier::external_body]
pub(crate) fn bytes_len(b: &bytes::Bytes) -> (n: usize)
    ensures
        n == bytes_content(*b).len(),
{
    b.len()
}

/// The `AsRef<[u8]>` impl of `Bytes` gives the bytes held, as a slice.
#[verifier::external_body]
pub(crate) fn bytes_slice(b: &bytes::Bytes) -> (s: &[u8])
    ensures
        s@ == bytes_content(*b),
{
    b.as_ref()
}

/// What matching a regular expression against a text yields: `None` where
/// `regex::Regex::new` rejects the pattern or `Regex::captures` finds no
/// match in the text; else one entry per capture group, group 0 (the whole
/// match) first, each the matched text or `None` for a group that took no
/// part in the match.
pub uninterp spec fn regex_captures(pattern: Seq<char>, text: Seq<char>) -> Option<
    Seq<Option<Seq<char>>>,
>;

/// The texts of a list of capture groups.
pub open spec fn group_texts(groups: Seq<Option<String>>) -> Seq<Option<Seq<char>>> {
    Seq::new(
        groups.len(),
        |i: int|
            match groups[i] {
                Some(s) => Some(s@),
                None => None,
            },
    )
}

/// `Regex::new` on `pattern`, then `Regex::captures` on `text`, the groups
/// copied out in order.
#[verifier::external_body]
pub(crate) fn captures(pattern: &str, text: &str) -> (r: Option<Vec<Option<String>>>)
    ensures
        match r {
            Some(groups) => regex_captures(pattern@, text@) == Some(group_texts(groups@)),
            None => regex_captures(pattern@, text@) is None,
        },
{
    let compiled = regex::Regex::new(pattern).ok()?;
    let found = compiled.captures(text)?;
    Some(found.iter().map(|group| group.map(|m| m.as_str().to_string())).collect())
}

/// `http::uri::InvalidUri`, carried through as it is.
#[verifier::external_type_specification]
#[verifier::external_body]
pub struct ExInvalidUri(::http::uri::InvalidUri);

/// The path and the query that `http::Uri` reads from a request target, or
/// `None` where it rejects the target.
pub uninterp spec fn uri_parts(target: Seq<char>) -> Option<(Seq<char>, Option<Seq<char>>)>;

/// The text of an optional string.
pub open spec fn optional_text(s: Option<String>) -> Option<Seq<char>> {
    match s {
        Some(s) => Some(s@),
        None => None,
    }
}

/// `Uri::from_str` on `target`, then `Uri::path` and `Uri::query`.
#[verifier::external_body]
pub(crate) fn parse_uri(target: &str) -> (r: Result<
    (String, Option<String>),
    ::http::uri::InvalidUri,
>)
    ensures
        match r {
            Ok(parts) => uri_parts(target@) == Some((parts.0@, optional_text(parts.1))),
            Err(_) => uri_parts(target@) is None,
        },
{
    let uri = target.parse::<::http::Uri>()?;
    Ok((uri.path().to_string(), uri.query().map(|q| q.to_string())))
}

/// The reason phrase that `http::StatusCode::canonical_reason` knows for a
/// status code, if any.
pub uninterp spec fn reason_phrase(code: u16) -> Option<Seq<char>>;

/// `StatusCode::from_u16` on `code`, then `StatusCode::canonical_reason`.
#[verifier::external_body]
pub(crate) fn canonical_reason(code: u16) -> (r: Option<&'static str>)
    ensures
        match r {
            Some(phrase) => reason_phrase(code) == Some(phrase@),
            None => reason_phrase(code) is None,
        },
{
    ::http::StatusCode::from_u16(code).ok()?.canonical_reason()
}

/// The text that `urlencoding::decode` reads from percent-encoded text:
/// each `%` with two hexadecimal digits replaced by the byte they denote,
/// and the bytes read as UTF-8; `None` where they are not UTF-8.
pub uninterp spec fn percent_decoded(text: Seq<char>) -> Option<Seq<char>>;

/// `urlencoding::decode`.
#[verifier::external_body]
pub(crate) fn percent_decode(text: &str) -> (r: Option<String>)
    ensures
        optional_text(r) == percent_decoded(text@),
{
    urlencoding::decode(text).ok().map(|decoded| decoded.into_owned())
}

/// The date and time that `chrono` writes for a number of seconds since
/// 1970-01-01 00:00:00 UTC, as year-month-day hour:minute:second in UTC;
/// `None` for a number of seconds outside the dates that `chrono` holds.
pub uninterp spec fn timestamp_text(seconds: i64) -> Option<Seq<char>>;

/// `DateTime::<Utc>::from_timestamp`, then `DateTime::format`.
#[verifier::external_body]
pub(crate) fn format_timestamp(seconds: i64) -> (r: Option<String>)
    ensures
        optional_text(r) == timestamp_text(seconds),
{
    let moment = chrono::DateTime::<chrono::Utc>::from_timestamp(seconds, 0)?;
    Some(moment.format("%Y-%m-%d %H:%M:%S").to_string())
}

/// `num_cpus::get` reports how many processors this machine offers, and
/// never fewer than one.
#[verifier::external_body]
pub(crate) fn available_cpus() -> (n: usize)
    ensures
        n >= 1,
{
    num_cpus::get()
}

} // verus!
