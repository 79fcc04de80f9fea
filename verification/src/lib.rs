//! A fixed-denomination privacy pool: an append-only incremental Merkle
//! accumulator records deposit commitments, a nullifier registry guarantees
//! each deposit is withdrawn at most once, and a pluggable proof verifier
//! authorizes withdrawals against the current accumulator root.

use vstd::prelude::*;

pub mod errors;
pub mod hash;
pub mod merkle;
pub mod pool;
pub mod registry;
pub mod zkproof;

verus! {

/// Height of the full-size accumulator, and the largest height a pool may use.
pub const MERKLE_TREE_HEIGHT: usize = 20;

/// Capacity of a full-size pool: 2^20 leaves.
pub const MAX_DEPOSITS: usize = 1_048_576;

} // verus!
