//! Errors reported by the library's operations.

use vstd::prelude::*;

verus! {

/// Why an operation was refused.
#[derive(Debug)]
pub enum AppError {
    /// The request does not fit the current state.
    Invalid(String),
    /// The thing asked for does not exist.
    NotFound(String),
    /// The URL is not one of the supported media links.
    UnsupportedUrl(String),
    /// Anything else.
    Other(String),
}

/// `str::to_owned` on a literal message.
pub fn msg(s: &str) -> (r: String)
    ensures
        r@ == s@,
{
    s.to_owned()
}

} // verus!
