//! The errors the engine reports.
//!
//! `InvalidInput` and `NotFound` are detected before any mutation.  A
//! `StorageFailure` aborts the whole transaction, so the store keeps its
//! prior state.  `NumericDomain` flags a distance outside the physically
//! possible range; it should never occur, but it is guarded rather than
//! carried into the rank formula.

use vstd::prelude::*;

verus! {

#[derive(Clone, Copy, Debug, PartialEq, Eq, Structural)]
pub enum ServiceError {
    /// The request asks for nothing: no field to update, or an
    /// unparsable postal code.
    InvalidInput,
    /// The profile identity does not resolve to a stored profile.
    NotFound,
    /// A distance outside the valid domain reached the engine.
    NumericDomain,
    /// The transactional store failed; nothing was committed.
    StorageFailure,
}

} // verus!
