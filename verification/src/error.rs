//! Errors that abort a run.

use vstd::prelude::*;

verus! {

/// A structural failure: the caller broke the catalog's contract, or a stored
/// value is corrupt.
#[derive(Clone, Copy, Debug, PartialEq, Eq, Structural)]
pub enum Error {
    /// A handle was removed earlier or never existed.
    NotFound,
    /// A stored file modification time does not match the fixed format.
    MalformedTimestamp,
}

impl Error {
    /// A short message for the person running the tool.
    pub fn message(&self) -> (r: &'static str)
        ensures
            r@ == (match *self {
                Error::NotFound => "file handle not found in catalog"@,
                Error::MalformedTimestamp => "invalid datetime string"@,
            }),
    {
        match self {
            Error::NotFound => "file handle not found in catalog",
            Error::MalformedTimestamp => "invalid datetime string",
        }
    }
}

} // verus!
