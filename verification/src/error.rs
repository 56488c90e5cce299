//! Errors of the library.

use vstd::prelude::*;

verus! {

/// Why a model could not be loaded or run.
#[derive(Debug)]
pub enum VcError {
    /// The caller's input was rejected; the text says why.
    Input(String),
    /// A tensor operation failed.
    Backend(candle_core::Error),
}

/// A result whose failure, if any, is a failed tensor operation.
pub(crate) fn lift<T>(r: Result<T, candle_core::Error>) -> (q: Result<T, VcError>)
    ensures
        r matches Ok(v) ==> q == Ok::<T, VcError>(v),
        r matches Err(e) ==> q == Err::<T, VcError>(VcError::Backend(e)),
{
    match r {
        Ok(v) => Ok(v),
        Err(e) => Err(VcError::Backend(e)),
    }
}

} // verus!
