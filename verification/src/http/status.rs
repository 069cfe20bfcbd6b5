//! Response status codes.

use crate::bindings::{canonical_reason, reason_phrase};
use vstd::prelude::*;

verus! {

/// A three-digit status code.
#[derive(Debug, Clone, Copy, PartialEq, Eq, Structural)]
pub struct StatusCode {
    code: u16,
}

impl StatusCode {
    /// The number of this status code.
    pub closed spec fn code(&self) -> u16 {
        self.code
    }

    /// The status code with the number `code`.
    pub closed spec fn of(code: u16) -> StatusCode {
        StatusCode { code }
    }

    #[verifier::type_invariant]
    pub closed spec fn in_range(&self) -> bool {
        100 <= self.code <= 999
    }

    /// The status code with the number `code`, which must have three digits.
    pub fn from_u16(code: u16) -> (r: Option<StatusCode>)
        ensures
            r is Some <==> 100 <= code <= 999,
            r matches Some(status) ==> status == StatusCode::of(code) && status.code() == code,
    {
        if 100 <= code && code <= 999 {
            Some(StatusCode { code })
        } else {
            None
        }
    }

    /// The number of this status code, which has three digits.
    pub fn as_u16(&self) -> (code: u16)
        ensures
            code == self.code(),
            100 <= code <= 999,
    {
        proof {
            use_type_invariant(self);
        }
        self.code
    }

    /// The standard reason phrase of this status code, if it has one.
    pub fn canonical_reason(&self) -> (r: Option<&'static str>)
        ensures
            match r {
                Some(phrase) => reason_phrase(self.code()) == Some(phrase@),
                None => reason_phrase(self.code()) is None,
            },
    {
        canonical_reason(self.code)
    }
}

} // verus!
