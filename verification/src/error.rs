//! The one way in which parsing fails.

use vstd::prelude::*;

verus! {

/// The input held no complete request line. Nothing tells one such failure
/// from another.
#[derive(Debug, Clone, Copy)]
pub struct RequestParseError;

/// The words that describe a [`RequestParseError`].
pub open spec fn error_text() -> Seq<char> {
    "error parsing http request"@
}

impl RequestParseError {
    /// The error.
    pub fn new() -> (error: RequestParseError)
        ensures
            error == RequestParseError,
    {
        RequestParseError {  }
    }

    /// What went wrong, in words.
    pub fn description(&self) -> (text: &'static str)
        ensures
            text@ == error_text(),
    {
        "error parsing http request"
    }
}

} // verus!
