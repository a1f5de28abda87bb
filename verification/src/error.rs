//! The failures that the library reports.
use vstd::prelude::*;

verus! {

/// Why an operation was refused.
#[derive(Clone, Copy, Debug, PartialEq, Eq, Structural)]
pub enum Error {
    /// Two shapes that have to agree do not, or an architecture has fewer
    /// than two layers.
    DimensionMismatch,
    /// A training set whose inputs and outputs differ in their number of rows,
    /// or whose columns do not fit the architecture it is used with.
    ConfigurationError,
    /// The channel or a lock of a training session failed.
    ConcurrencyFailure,
}

impl Error {
    /// A short description for messages.
    pub fn describe(&self) -> (text: &'static str)
        ensures
            text@ == Self::description(*self),
    {
        match self {
            Error::DimensionMismatch => "dimension mismatch",
            Error::ConfigurationError => "configuration error",
            Error::ConcurrencyFailure => "concurrency failure",
        }
    }

    /// The text that `describe` returns.
    pub open spec fn description(e: Error) -> Seq<char> {
        match e {
            Error::DimensionMismatch => "dimension mismatch"@,
            Error::ConfigurationError => "configuration error"@,
            Error::ConcurrencyFailure => "concurrency failure"@,
        }
    }
}

} // verus!
