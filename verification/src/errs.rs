//! Error kinds returned by the commitment scheme.

use vstd::prelude::*;

verus! {

/// What can go wrong in a commitment-scheme operation.
#[derive(Clone, Copy, Debug, PartialEq, Eq, Structural)]
pub enum KZGError {
    /// A polynomial is too large for the reference string, or exceeds the
    /// maximum degree stated by the caller.
    DegreeError,
    /// The pairing equation of an opening does not hold.
    PCSProveEvalError,
    /// The bytes of a reference string are malformed.
    DeserializationError,
}

} // verus!
