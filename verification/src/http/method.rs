//! Request methods and protocol versions.

use crate::text::{chars_of, same, spells, string_of};
use vstd::prelude::*;

verus! {

/// A request method: one of the registered ones, or any other token.
#[allow(non_camel_case_types)]
#[derive(Debug, Clone, PartialEq, Eq)]
pub enum Method {
    OPTIONS,
    GET,
    POST,
    PUT,
    DELETE,
    HEAD,
    TRACE,
    CONNECT,
    PATCH,
    Extension(String),
}

/// The protocol version named on a request line.
#[allow(non_camel_case_types)]
#[derive(Debug, Clone, Copy, PartialEq, Eq, Structural)]
pub enum Version {
    HTTP_10,
    HTTP_11,
}

/// The characters that a token may hold: letters, digits and
/// ``! # $ % & ' * + - . ^ _ ` | ~``.
pub open spec fn is_token_char(c: char) -> bool {
    ||| 'a' <= c <= 'z'
    ||| 'A' <= c <= 'Z'
    ||| '0' <= c <= '9'
    ||| c == '!'
    ||| c == '#'
    ||| c == '$'
    ||| c == '%'
    ||| c == '&'
    ||| c == '\''
    ||| c == '*'
    ||| c == '+'
    ||| c == '-'
    ||| c == '.'
    ||| c == '^'
    ||| c == '_'
    ||| c == '`'
    ||| c == '|'
    ||| c == '~'
}

/// A token: one or more token characters.
pub open spec fn is_token(s: Seq<char>) -> bool {
    s.len() > 0 && forall|i: int| 0 <= i < s.len() ==> is_token_char(#[trigger] s[i])
}

/// Whether `c` may stand in a token.
pub fn token_char(c: char) -> (r: bool)
    ensures
        r == is_token_char(c),
{
    ('a' <= c && c <= 'z') || ('A' <= c && c <= 'Z') || ('0' <= c && c <= '9') || c == '!' || c
        == '#' || c == '$' || c == '%' || c == '&' || c == '\'' || c == '*' || c == '+' || c == '-'
        || c == '.' || c == '^' || c == '_' || c == '`' || c == '|' || c == '~'
}

/// Whether `s` is a token.
pub fn token(s: &[char]) -> (r: bool)
    ensures
        r == is_token(s@),
{
    if s.len() == 0 {
        return false;
    }
    let mut i: usize = 0;
    while i < s.len()
        invariant
            i <= s@.len(),
            forall|k: int| 0 <= k < i ==> is_token_char(#[trigger] s@[k]),
        decreases s@.len() - i,
    {
        if !token_char(s[i]) {
            return false;
        }
        i += 1;
    }
    true
}

impl Method {
    /// The method as it is written on a request line.
    pub open spec fn name(&self) -> Seq<char> {
        match self {
            Method::OPTIONS => "OPTIONS"@,
            Method::GET => "GET"@,
            Method::POST => "POST"@,
            Method::PUT => "PUT"@,
            Method::DELETE => "DELETE"@,
            Method::HEAD => "HEAD"@,
            Method::TRACE => "TRACE"@,
            Method::CONNECT => "CONNECT"@,
            Method::PATCH => "PATCH"@,
            Method::Extension(name) => name@,
        }
    }

    /// The method as it is written on a request line.
    pub fn as_str(&self) -> (name: &str)
        ensures
            name@ == self.name(),
    {
        match self {
            Method::OPTIONS => "OPTIONS",
            Method::GET => "GET",
            Method::POST => "POST",
            Method::PUT => "PUT",
            Method::DELETE => "DELETE",
            Method::HEAD => "HEAD",
            Method::TRACE => "TRACE",
            Method::CONNECT => "CONNECT",
            Method::PATCH => "PATCH",
            Method::Extension(name) => name.as_str(),
        }
    }

    /// Reads a method: any token is one, and nothing else is.
    pub fn parse(text: &str) -> (r: Option<Method>)
        ensures
            r is Some <==> is_token(text@),
            r matches Some(method) ==> method.name() == text@,
    {
        let chars = chars_of(text);
        let s = chars.as_slice();
        if !token(s) {
            return None;
        }
        let method = if spells(s, "OPTIONS") {
            Method::OPTIONS
        } else if spells(s, "GET") {
            Method::GET
        } else if spells(s, "POST") {
            Method::POST
        } else if spells(s, "PUT") {
            Method::PUT
        } else if spells(s, "DELETE") {
            Method::DELETE
        } else if spells(s, "HEAD") {
            Method::HEAD
        } else if spells(s, "TRACE") {
            Method::TRACE
        } else if spells(s, "CONNECT") {
            Method::CONNECT
        } else if spells(s, "PATCH") {
            Method::PATCH
        } else {
            Method::Extension(string_of(s))
        };
        Some(method)
    }

    /// Whether two methods are written the same way.
    pub fn same_as(&self, other: &Method) -> (r: bool)
        ensures
            r == (self.name() == other.name()),
    {
        let a = chars_of(self.as_str());
        let b = chars_of(other.as_str());
        same(a.as_slice(), b.as_slice())
    }
}

impl Version {
    /// The version as it is written on a request line.
    pub open spec fn name(&self) -> Seq<char> {
        match self {
            Version::HTTP_10 => "HTTP/1.0"@,
            Version::HTTP_11 => "HTTP/1.1"@,
        }
    }

    /// Reads a version: `HTTP/1.0` or `HTTP/1.1`.
    pub fn parse(text: &[char]) -> (r: Option<Version>)
        ensures
            match r {
                Some(version) => version.name() == text@,
                None => text@ != "HTTP/1.0"@ && text@ != "HTTP/1.1"@,
            },
    {
        if spells(text, "HTTP/1.0") {
            Some(Version::HTTP_10)
        } else if spells(text, "HTTP/1.1") {
            Some(Version::HTTP_11)
        } else {
            None
        }
    }
}

} // verus!
