//! Request targets.

use crate::bindings::{optional_text, parse_uri, uri_parts};
use crate::error::Error;
use vstd::prelude::*;

verus! {

/// The target of a request: its path, and its query if it has one.
#[derive(Debug, Clone, PartialEq, Eq)]
pub struct Uri {
    path: String,
    query: Option<String>,
}

impl Uri {
    /// The path of the target.
    pub closed spec fn path_text(&self) -> Seq<char> {
        self.path@
    }

    /// The query of the target: what follows the first `?`, if anything.
    pub closed spec fn query_text(&self) -> Option<Seq<char>> {
        optional_text(self.query)
    }

    /// Reads a request target. It is `InvalidUri` exactly where the `http`
    /// crate rejects the target.
    pub fn parse(target: &str) -> (r: Result<Uri, Error>)
        ensures
            match r {
                Ok(uri) => uri_parts(target@) == Some((uri.path_text(), uri.query_text())),
                Err(e) => uri_parts(target@) is None && e is InvalidUri,
            },
    {
        match parse_uri(target) {
            Ok(parts) => Ok(Uri { path: parts.0, query: parts.1 }),
            Err(e) => Err(Error::InvalidUri(e)),
        }
    }

    /// The path of the target.
    pub fn path(&self) -> (path: &str)
        ensures
            path@ == self.path_text(),
    {
        self.path.as_str()
    }

    /// The query of the target, if it has one.
    pub fn query(&self) -> (query: Option<&str>)
        ensures
            match query {
                Some(q) => self.query_text() == Some(q@),
                None => self.query_text() is None,
            },
    {
        match &self.query {
            Some(q) => Some(q.as_str()),
            None => None,
        }
    }
}

} // verus!
