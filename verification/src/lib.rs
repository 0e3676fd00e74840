//! Proof-generation orchestration for a PLONK-family prover over BN254.
//!
//! The pieces, leaves first: opaque-but-canonical scalar and curve-point
//! values whose arithmetic the curve library supplies (`field`, `curve`);
//! a sequential Fiat-Shamir absorb/squeeze engine over BLAKE2b
//! (`transcript`); a multi-scalar-multiplication engine whose contract
//! pins every backend to the same fold of group operations (`msm`); an
//! immutable proving key parsed from a serialized circuit description
//! (`keys`); and the prover, a state machine that owns one proof's
//! transcript and randomness and drives the commitment rounds
//! (`prover`).
//!
//! Everything absorbed into a transcript, and every byte of the final
//! proof, is specified as a function of the session's bound state and
//! the witness: proofs are deterministic, order-sensitive, and reject
//! the point at infinity.

use vstd::prelude::*;

pub mod curve;
pub mod field;
pub mod keys;
pub mod msm;
pub mod prover;
pub mod transcript;

verus! {

/// Errors a proof-generation session can surface.
///
/// Each is fatal to the current session: a failed prover is discarded
/// and a fresh one created.
#[derive(Clone, Copy, Debug, PartialEq, Eq, Structural)]
pub enum Error {
    /// The point at infinity was handed to the transcript.
    InvalidPointError,
    /// A basis/scalar or witness vector length does not match.
    SizeMismatchError,
    /// A state-machine transition was attempted out of order.
    StateSequenceError,
}

} // verus!
