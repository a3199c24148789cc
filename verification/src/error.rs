//! The ways in which a read can fail.

use vstd::prelude::*;

verus! {

/// Why a read produced no value.
#[derive(Debug, Clone, Copy, PartialEq, Eq, Structural)]
pub enum ScanError {
    /// A line was asked for and the input has none left.
    EndOfInput,
    /// A token's text is not a value of the requested type.
    ParseFailure,
    /// A line read as a tuple holds fewer or more tokens than the tuple has
    /// positions.
    TokenCountMismatch,
}

/// A result seen through the view of the value it carries.
pub open spec fn outcome<T: DeepView>(r: Result<T, ScanError>) -> Result<T::V, ScanError> {
    match r {
        Ok(v) => Ok(v.deep_view()),
        Err(e) => Err(e),
    }
}

} // verus!
