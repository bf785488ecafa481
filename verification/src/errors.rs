//! Error taxonomy: structural decode failures, cryptographic rejections and
//! cache lifecycle errors are kept distinct so that a caller can tell a
//! malformed input from a security-relevant proof failure.

use vstd::prelude::*;

verus! {

/// Failure of the canonical codec: the bytes are not a valid canonical
/// encoding of an account state (or of one of its resources).
#[derive(Clone, Copy, Debug, PartialEq, Eq, Structural)]
pub enum CodecError {
    MalformedState,
}

/// Failure of an authentication request.
#[derive(Clone, Copy, Debug, PartialEq, Eq, Structural)]
pub enum AuthError {
    /// The proof answers a different ledger version than the one requested.
    VersionMismatch,
    /// The recomputed Merkle root differs from the trusted root, or the proof
    /// is structurally unusable.
    ProofMismatch,
    /// The entries handed to a range proof are not strictly ascending by key.
    RangeOrderViolation,
    /// A chunk's internal invariants (index arithmetic, boundary keys,
    /// ordering) do not hold; detected before any cryptographic check.
    MalformedChunk,
}

/// Failure of the validation cache.
#[derive(Clone, Copy, Debug, PartialEq, Eq, Structural)]
pub enum ValidationError {
    /// The cache was used before its initial construction.
    ValidationUnavailable,
    /// The cached account state for the sender did not decode.
    MalformedState,
}

} // verus!
