//! The error taxonomy of the pool. Every error is fail-closed: the caller must
//! correct the input and resubmit; no partial state is ever committed on error.

use vstd::prelude::*;

verus! {

/// Why a deposit or a withdrawal was rejected.
#[derive(Clone, Copy, Debug, PartialEq, Eq, Structural)]
pub enum MixerError {
    /// The commitment is already recorded in the pool.
    CommitmentAlreadyUsed,
    /// The nullifier is already marked used: the deposit was spent before.
    NullifierAlreadyUsed,
    /// The withdrawal proof was rejected by the proof verifier.
    InvalidProof,
    /// The accumulator holds as many leaves as its capacity allows.
    PoolFull,
    /// The relayer fee exceeds the pool's denomination amount.
    ArithmeticError,
    /// The custody balance cannot cover the denomination amount. Unreachable
    /// while every withdrawal is matched by an earlier deposit.
    InsufficientCustody,
}

} // verus!
