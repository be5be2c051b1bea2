//! The library's result and error types.
use vstd::prelude::*;

verus! {

/// Standard result used in the library.
pub type OrdinalResult<T> = Result<T, OrdinalError>;

/// Standard error type used in the library.
#[derive(Debug)]
pub enum OrdinalError {
    /// An argument provided is invalid.
    BadArgument(String),
}

/// The text that describes an error.
pub open spec fn error_text(e: OrdinalError) -> Seq<char> {
    match e {
        OrdinalError::BadArgument(s) => "Bad argument: "@ + s@,
    }
}

/// Calls `format!` with two placeholders and nothing between them: the result is the
/// first string followed by the second.
#[verifier::external_body]
fn joined(head: &str, tail: &str) -> (text: String)
    ensures
        text@ == head@ + tail@,
{
    format!("{}{}", head, tail)
}

impl OrdinalError {
    /// The error as text for a reader.
    pub fn to_string(&self) -> (text: String)
        ensures
            text@ == error_text(*self),
    {
        match self {
            OrdinalError::BadArgument(s) => joined("Bad argument: ", s.as_str()),
        }
    }
}

} // verus!
