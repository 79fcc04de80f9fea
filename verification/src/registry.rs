//! Membership records over 32-byte digests: the commitment set, which
//! prevents duplicate deposits, and the nullifier registry, which prevents
//! double withdrawal. Both are append-only and unbounded: the enclosing
//! workflows bound deposits by the accumulator's capacity, and withdrawals by
//! the deposits, so neither record needs a capacity of its own.

use vstd::prelude::*;
use crate::hash::digest_eq;

verus! {

/// The commitments recorded by deposits, oldest first: exactly the leaf
/// sequence of the pool's accumulator.
pub struct CommitmentSet {
    pub commitments: Vec<[u8; 32]>,
}

impl View for CommitmentSet {
    type V = Seq<[u8; 32]>;

    open spec fn view(&self) -> Seq<[u8; 32]> {
        self.commitments@
    }
}

impl CommitmentSet {
    /// An empty commitment set.
    pub fn new() -> (s: CommitmentSet)
        ensures
            s@ == Seq::<[u8; 32]>::empty(),
    {
        CommitmentSet { commitments: Vec::new() }
    }

    /// Whether the commitment was recorded before.
    pub fn contains(&self, commitment: &[u8; 32]) -> (r: bool)
        ensures
            r == self@.contains(*commitment),
    {
        let mut i: usize = 0;
        while i < self.commitments.len()
            invariant
                i <= self.commitments@.len(),
                forall|j: int| 0 <= j < i ==> self.commitments@[j] != *commitment,
            decreases self.commitments@.len() - i,
        {
            if digest_eq(&self.commitments[i], commitment) {
                assert(self@[i as int] == *commitment);
                return true;
            }
            i += 1;
        }
        false
    }

    /// Record a commitment. Inserting a commitment that is already present is
    /// a contract violation: the workflow checks membership first.
    pub fn insert(&mut self, commitment: [u8; 32])
        requires
            !old(self)@.contains(commitment),
        ensures
            final(self)@ == old(self)@.push(commitment),
    {
        self.commitments.push(commitment);
    }
}

/// The nullifiers revealed by withdrawals, in the order they were marked
/// used. A nullifier is marked at most once and never removed.
pub struct NullifierRegistry {
    pub used_nullifiers: Vec<[u8; 32]>,
}

impl View for NullifierRegistry {
    type V = Seq<[u8; 32]>;

    open spec fn view(&self) -> Seq<[u8; 32]> {
        self.used_nullifiers@
    }
}

impl NullifierRegistry {
    /// An empty registry.
    pub fn new() -> (s: NullifierRegistry)
        ensures
            s@ == Seq::<[u8; 32]>::empty(),
    {
        NullifierRegistry { used_nullifiers: Vec::new() }
    }

    /// Whether the nullifier was already spent.
    pub fn is_nullifier_used(&self, nullifier: &[u8; 32]) -> (r: bool)
        ensures
            r == self@.contains(*nullifier),
    {
        let mut i: usize = 0;
        while i < self.used_nullifiers.len()
            invariant
                i <= self.used_nullifiers@.len(),
                forall|j: int| 0 <= j < i ==> self.used_nullifiers@[j] != *nullifier,
            decreases self.used_nullifiers@.len() - i,
        {
            if digest_eq(&self.used_nullifiers[i], nullifier) {
                assert(self@[i as int] == *nullifier);
                return true;
            }
            i += 1;
        }
        false
    }

    /// Mark a nullifier used. Marking a nullifier twice is a contract
    /// violation: the workflow checks membership first.
    pub fn mark_nullifier_used(&mut self, nullifier: [u8; 32])
        requires
            !old(self)@.contains(nullifier),
        ensures
            final(self)@ == old(self)@.push(nullifier),
    {
        self.used_nullifiers.push(nullifier);
    }
}

} // verus!
