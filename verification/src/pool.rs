//! The per-denomination pool: current root, counters and custody, composed
//! with the accumulator, the commitment set, the nullifier registry and a
//! pluggable proof verifier. The deposit and withdraw workflows live here;
//! each is all-or-nothing — on any rejection no state changes.
//!
//! Every state-mutating operation takes the pool by exclusive reference, so a
//! process serializes them: in particular the check and the mark of a
//! nullifier happen within one `withdraw` call, and no two deposits can read
//! the same leaf index.

use vstd::prelude::*;
use vstd::arithmetic::power2::{pow2, lemma2_to64};
use crate::errors::MixerError;
use crate::hash::spec_zero_digest;
use crate::merkle::{MerkleTree, spec_root_of};
use crate::registry::{CommitmentSet, NullifierRegistry};
use crate::zkproof::{ZkProof, ProofVerifier};
use crate::MERKLE_TREE_HEIGHT;

verus! {

/// Fixed deposit amount of the 0.1-unit tier, in base units.
pub const DEPOSIT_0_1_SOL: u64 = 100_000_000;

/// Fixed deposit amount of the 1-unit tier, in base units.
pub const DEPOSIT_1_SOL: u64 = 1_000_000_000;

/// Fixed deposit amount of the 10-unit tier, in base units.
pub const DEPOSIT_10_SOL: u64 = 10_000_000_000;

/// Fixed deposit amount of the 100-unit tier, in base units.
pub const DEPOSIT_100_SOL: u64 = 100_000_000_000;

/// The four fixed denominations. Each runs its own independently-capacitied
/// pool, so amounts within a pool are uniform.
#[derive(Clone, Copy, Debug, PartialEq, Eq, Structural)]
pub enum PoolType {
    /// 0.1 units.
    Sol0_1,
    /// 1 unit.
    Sol1,
    /// 10 units.
    Sol10,
    /// 100 units.
    Sol100,
}

/// The tag byte of each denomination tier.
pub open spec fn spec_pool_type_tag(pool_type: PoolType) -> u8 {
    match pool_type {
        PoolType::Sol0_1 => 0,
        PoolType::Sol1 => 1,
        PoolType::Sol10 => 2,
        PoolType::Sol100 => 3,
    }
}

/// The fixed amount of each denomination tier, in base units.
pub open spec fn spec_deposit_amount(pool_type: PoolType) -> u64 {
    match pool_type {
        PoolType::Sol0_1 => DEPOSIT_0_1_SOL,
        PoolType::Sol1 => DEPOSIT_1_SOL,
        PoolType::Sol10 => DEPOSIT_10_SOL,
        PoolType::Sol100 => DEPOSIT_100_SOL,
    }
}

impl PoolType {
    /// The tag byte of this tier.
    pub fn to_u8(&self) -> (r: u8)
        ensures
            r == spec_pool_type_tag(*self),
    {
        match self {
            PoolType::Sol0_1 => 0,
            PoolType::Sol1 => 1,
            PoolType::Sol10 => 2,
            PoolType::Sol100 => 3,
        }
    }
}

/// The fixed amount of the given tier, in base units.
pub fn get_deposit_amount(pool_type: &PoolType) -> (amount: u64)
    ensures
        amount == spec_deposit_amount(*pool_type),
{
    match pool_type {
        PoolType::Sol0_1 => DEPOSIT_0_1_SOL,
        PoolType::Sol1 => DEPOSIT_1_SOL,
        PoolType::Sol10 => DEPOSIT_10_SOL,
        PoolType::Sol100 => DEPOSIT_100_SOL,
    }
}

/// The relayer's cut of a withdrawal: the requested fee when a relayer is
/// named, nothing otherwise.
pub open spec fn spec_relayer_fee(relayer: Option<[u8; 32]>, fee: u64) -> u64 {
    if relayer is Some {
        fee
    } else {
        0
    }
}

/// The abstract state of a pool: everything its contracts speak about.
#[verifier::ext_equal]
pub struct PoolModel {
    /// The denomination tier.
    pub pool_type: PoolType,
    /// The fixed deposit amount, in base units.
    pub deposit_amount: u64,
    /// The height of the accumulator; capacity is `2^height` leaves.
    pub height: nat,
    /// The commitments deposited so far, in insertion order: the accumulator's
    /// leaf sequence.
    pub leaves: Seq<[u8; 32]>,
    /// The nullifiers spent so far, in the order they were marked used.
    pub nullifiers: Seq<[u8; 32]>,
    /// The current accumulator root.
    pub root: [u8; 32],
}

/// A record of one deposit, for off-system indexers: leaves are not
/// retrievable from the stored frontier, so reconstruction relies on these.
#[derive(Clone, Copy, Debug)]
pub struct DepositEvent {
    /// The commitment that was inserted.
    pub commitment: [u8; 32],
    /// The leaf index the commitment received.
    pub leaf_index: u64,
    /// Caller-supplied wall-clock time of the deposit.
    pub timestamp: i64,
    /// The tier of the pool deposited into.
    pub pool_type: PoolType,
}

/// A record of one withdrawal, doubling as the transfer order: the recipient
/// is owed `recipient_amount` and the relayer, if any, is owed `fee`, both
/// drawn from the pool's custody.
#[derive(Clone, Copy, Debug)]
pub struct WithdrawEvent {
    /// The nullifier that this withdrawal marked used.
    pub nullifier_hash: [u8; 32],
    /// The address paid the denomination minus the relayer fee.
    pub recipient: [u8; 32],
    /// The relayer that submitted the withdrawal, if any.
    pub relayer: Option<[u8; 32]>,
    /// What the relayer is paid: the requested fee, or zero without a relayer.
    pub fee: u64,
    /// What the recipient is paid: exactly the denomination minus `fee`.
    pub recipient_amount: u64,
    /// Caller-supplied wall-clock time of the withdrawal.
    pub timestamp: i64,
}

/// A snapshot of the pool's counters, root and computed custody balance.
#[derive(Clone, Copy, Debug)]
pub struct PoolStats {
    /// The denomination tier.
    pub pool_type: PoolType,
    /// The fixed deposit amount, in base units.
    pub deposit_amount: u64,
    /// How many deposits were accepted.
    pub total_deposits: u64,
    /// How many withdrawals were paid out.
    pub total_withdrawals: u64,
    /// The custody balance: (deposits - withdrawals) x the deposit amount.
    pub current_balance: u64,
    /// The current accumulator root.
    pub merkle_root: [u8; 32],
}

/// One fixed-denomination pool.
pub struct Pool {
    /// The denomination tier.
    pub pool_type: PoolType,
    /// The fixed deposit amount, in base units.
    pub deposit_amount: u64,
    /// How many deposits were accepted; always equals `next_index`.
    pub total_deposits: u64,
    /// How many withdrawals were paid out.
    pub total_withdrawals: u64,
    /// The current accumulator root over exactly the leaves inserted so far.
    pub merkle_root: [u8; 32],
    /// The index the next deposit will receive.
    pub next_index: u64,
    /// The incremental accumulator recording the commitments.
    pub merkle_tree: MerkleTree,
    /// The commitments recorded so far.
    pub commitments: CommitmentSet,
    /// The nullifiers spent so far.
    pub nullifiers: NullifierRegistry,
}

impl View for Pool {
    type V = PoolModel;

    open spec fn view(&self) -> PoolModel {
        PoolModel {
            pool_type: self.pool_type,
            deposit_amount: self.deposit_amount,
            height: self.merkle_tree.height as nat,
            leaves: self.merkle_tree.leaves@,
            nullifiers: self.nullifiers@,
            root: self.merkle_root,
        }
    }
}

impl Pool {
    /// How many leaves the pool can hold.
    pub open spec fn spec_capacity(self) -> nat {
        pow2(self@.height)
    }

    /// The custody balance owed to the pool: every deposit paid in the
    /// denomination amount and every withdrawal paid it out.
    pub open spec fn spec_custody(self) -> int {
        (self@.leaves.len() - self@.nullifiers.len()) * self.deposit_amount
    }

    /// The structural invariant of the pool.
    pub open spec fn wf(self) -> bool {
        &&& self.merkle_tree.wf()
        &&& self.commitments@ == self.merkle_tree.leaves@
        &&& self.total_deposits == self.merkle_tree.next_index
        &&& self.next_index == self.merkle_tree.next_index
        &&& self.total_withdrawals == self.nullifiers@.len()
        &&& self.total_withdrawals <= self.total_deposits
        &&& self.merkle_root == spec_root_of(self.merkle_tree.leaves@, self@.height)
        &&& self.deposit_amount * pow2(self@.height) <= u64::MAX
    }

    /// An empty pool with an explicit denomination amount and accumulator
    /// height. The amount must be small enough that even a full pool's
    /// custody fits the balance type.
    pub fn new(pool_type: PoolType, deposit_amount: u64, height: usize) -> (pool: Pool)
        requires
            1 <= height <= MERKLE_TREE_HEIGHT,
            deposit_amount * pow2(height as nat) <= u64::MAX,
        ensures
            pool.wf(),
            pool@.pool_type == pool_type,
            pool@.deposit_amount == deposit_amount,
            pool@.height == height,
            pool@.leaves == Seq::<[u8; 32]>::empty(),
            pool@.nullifiers == Seq::<[u8; 32]>::empty(),
            pool@.root == spec_zero_digest(),
    {
        let tree = MerkleTree::new(height);
        proof {
            crate::merkle::lemma_root_of_empty(tree.leaves@, height as nat);
        }
        Pool {
            pool_type,
            deposit_amount,
            total_deposits: 0,
            total_withdrawals: 0,
            merkle_root: crate::hash::zero_digest(),
            next_index: 0,
            merkle_tree: tree,
            commitments: CommitmentSet::new(),
            nullifiers: NullifierRegistry::new(),
        }
    }

    /// An empty full-height pool of the given denomination tier.
    pub fn initialize(pool_type: PoolType) -> (pool: Pool)
        ensures
            pool.wf(),
            pool.spec_capacity() == crate::MAX_DEPOSITS,
            pool@.pool_type == pool_type,
            pool@.deposit_amount == spec_deposit_amount(pool_type),
            pool@.height == MERKLE_TREE_HEIGHT,
            pool@.leaves == Seq::<[u8; 32]>::empty(),
            pool@.nullifiers == Seq::<[u8; 32]>::empty(),
            pool@.root == spec_zero_digest(),
    {
        let amount = get_deposit_amount(&pool_type);
        proof {
            lemma2_to64();
        }
        Pool::new(pool_type, amount, MERKLE_TREE_HEIGHT)
    }

    /// Deposit a commitment: record it in the commitment set, append it to
    /// the accumulator, refresh the root and the counters, and return the
    /// deposit record. Rejected — with no state change — when the pool is
    /// full or the commitment was deposited before; in return, a fresh
    /// commitment into a non-full pool is always accepted.
    pub fn deposit(&mut self, commitment: [u8; 32], timestamp: i64) -> (r: Result<
        DepositEvent,
        MixerError,
    >)
        requires
            old(self).wf(),
        ensures
            final(self).wf(),
            final(self)@.pool_type == old(self)@.pool_type,
            final(self)@.deposit_amount == old(self)@.deposit_amount,
            final(self)@.height == old(self)@.height,
            final(self)@.nullifiers == old(self)@.nullifiers,
            match r {
                Ok(ev) => {
                    &&& final(self).spec_custody() == old(self).spec_custody()
                        + old(self)@.deposit_amount
                    &&& old(self)@.leaves.len() < old(self).spec_capacity()
                    &&& !old(self)@.leaves.contains(commitment)
                    &&& final(self)@.leaves == old(self)@.leaves.push(commitment)
                    &&& final(self)@.root == spec_root_of(final(self)@.leaves, final(self)@.height)
                    &&& ev.commitment == commitment
                    &&& ev.leaf_index == old(self)@.leaves.len()
                    &&& final(self)@.leaves[ev.leaf_index as int] == commitment
                    &&& ev.timestamp == timestamp
                    &&& ev.pool_type == old(self)@.pool_type
                },
                Err(e) => {
                    &&& final(self)@ == old(self)@
                    &&& (e == MixerError::PoolFull <==> old(self)@.leaves.len()
                        >= old(self).spec_capacity())
                    &&& (e == MixerError::CommitmentAlreadyUsed <==> old(self)@.leaves.len()
                        < old(self).spec_capacity() && old(self)@.leaves.contains(commitment))
                },
            },
            (r is Ok) <==> (old(self)@.leaves.len() < old(self).spec_capacity() && !old(
                self,
            )@.leaves.contains(commitment)),
    {
        let cap = self.merkle_tree.capacity();
        if self.next_index >= cap {
            return Err(MixerError::PoolFull);
        }
        if self.commitments.contains(&commitment) {
            return Err(MixerError::CommitmentAlreadyUsed);
        }
        let leaf_index = self.merkle_tree.insert_leaf(commitment);
        self.commitments.insert(commitment);
        self.next_index = self.next_index + 1;
        self.total_deposits = self.total_deposits + 1;
        self.merkle_root = self.merkle_tree.compute_merkle_root();
        proof {
            let l = old(self)@.leaves.len() as int;
            let w = old(self)@.nullifiers.len() as int;
            let a = old(self)@.deposit_amount as int;
            assert((l + 1 - w) * a == (l - w) * a + a) by (nonlinear_arith);
        }
        Ok(DepositEvent { commitment, leaf_index, timestamp, pool_type: self.pool_type })
    }

    /// Withdraw a deposit: reject a spent nullifier, then a proof the
    /// verifier rejects against the current root, then a relayer fee above
    /// the denomination, then an empty custody; otherwise mark the nullifier
    /// used — before any transfer — and return the transfer order splitting
    /// the denomination exactly between recipient and relayer. On any
    /// rejection no state changes.
    pub fn withdraw<V: ProofVerifier>(
        &mut self,
        proof_verifier: &V,
        zk_proof: &ZkProof,
        nullifier_hash: [u8; 32],
        recipient: [u8; 32],
        relayer: Option<[u8; 32]>,
        fee: u64,
        timestamp: i64,
    ) -> (r: Result<WithdrawEvent, MixerError>)
        requires
            old(self).wf(),
        ensures
            final(self).wf(),
            final(self)@.pool_type == old(self)@.pool_type,
            final(self)@.deposit_amount == old(self)@.deposit_amount,
            final(self)@.height == old(self)@.height,
            final(self)@.leaves == old(self)@.leaves,
            final(self)@.root == old(self)@.root,
            match r {
                Ok(ev) => {
                    &&& final(self).spec_custody() == old(self).spec_custody() - (
                    ev.recipient_amount + ev.fee)
                    &&& !old(self)@.nullifiers.contains(nullifier_hash)
                    &&& proof_verifier.accepts(
                        *zk_proof,
                        old(self)@.root,
                        nullifier_hash,
                        recipient,
                        fee,
                    )
                    &&& spec_relayer_fee(relayer, fee) <= old(self)@.deposit_amount
                    &&& old(self)@.nullifiers.len() < old(self)@.leaves.len()
                    &&& final(self)@.nullifiers == old(self)@.nullifiers.push(nullifier_hash)
                    &&& ev.nullifier_hash == nullifier_hash
                    &&& ev.recipient == recipient
                    &&& ev.relayer == relayer
                    &&& ev.fee == spec_relayer_fee(relayer, fee)
                    &&& ev.recipient_amount + ev.fee == old(self)@.deposit_amount
                    &&& ev.timestamp == timestamp
                },
                Err(e) => {
                    &&& final(self)@ == old(self)@
                    &&& (e == MixerError::NullifierAlreadyUsed <==> old(
                        self,
                    )@.nullifiers.contains(nullifier_hash))
                    &&& (e == MixerError::InvalidProof <==> !old(self)@.nullifiers.contains(
                        nullifier_hash,
                    ) && !proof_verifier.accepts(
                        *zk_proof,
                        old(self)@.root,
                        nullifier_hash,
                        recipient,
                        fee,
                    ))
                    &&& (e == MixerError::ArithmeticError <==> !old(self)@.nullifiers.contains(
                        nullifier_hash,
                    ) && proof_verifier.accepts(
                        *zk_proof,
                        old(self)@.root,
                        nullifier_hash,
                        recipient,
                        fee,
                    ) && spec_relayer_fee(relayer, fee) > old(self)@.deposit_amount)
                    &&& (e == MixerError::InsufficientCustody <==> !old(
                        self,
                    )@.nullifiers.contains(nullifier_hash) && proof_verifier.accepts(
                        *zk_proof,
                        old(self)@.root,
                        nullifier_hash,
                        recipient,
                        fee,
                    ) && spec_relayer_fee(relayer, fee) <= old(self)@.deposit_amount && old(
                        self,
                    )@.nullifiers.len() >= old(self)@.leaves.len())
                },
            },
            (r is Ok) <==> (!old(self)@.nullifiers.contains(nullifier_hash)
                && proof_verifier.accepts(
                *zk_proof,
                old(self)@.root,
                nullifier_hash,
                recipient,
                fee,
            ) && spec_relayer_fee(relayer, fee) <= old(self)@.deposit_amount && old(
                self,
            )@.nullifiers.len() < old(self)@.leaves.len()),
    {
        if self.nullifiers.is_nullifier_used(&nullifier_hash) {
            return Err(MixerError::NullifierAlreadyUsed);
        }
        if !proof_verifier.verify(zk_proof, &self.merkle_root, &nullifier_hash, &recipient, fee) {
            return Err(MixerError::InvalidProof);
        }
        let relayer_fee: u64 = if relayer.is_some() {
            fee
        } else {
            0
        };
        if relayer_fee > self.deposit_amount {
            return Err(MixerError::ArithmeticError);
        }
        if self.total_withdrawals >= self.total_deposits {
            return Err(MixerError::InsufficientCustody);
        }
        // Checks-effects order: the nullifier is marked used strictly before
        // the transfer order leaves this call.
        self.nullifiers.mark_nullifier_used(nullifier_hash);
        self.total_withdrawals = self.total_withdrawals + 1;
        let recipient_amount = self.deposit_amount - relayer_fee;
        proof {
            let l = old(self)@.leaves.len() as int;
            let w = old(self)@.nullifiers.len() as int;
            let a = old(self)@.deposit_amount as int;
            assert((l - (w + 1)) * a == (l - w) * a - a) by (nonlinear_arith);
        }
        Ok(
            WithdrawEvent {
                nullifier_hash,
                recipient,
                relayer,
                fee: relayer_fee,
                recipient_amount,
                timestamp,
            },
        )
    }

    /// The pool's counters, root and computed custody balance.
    pub fn get_pool_stats(&self) -> (stats: PoolStats)
        requires
            self.wf(),
        ensures
            stats.pool_type == self@.pool_type,
            stats.deposit_amount == self@.deposit_amount,
            stats.total_deposits == self@.leaves.len(),
            stats.total_withdrawals == self@.nullifiers.len(),
            stats.current_balance == self.spec_custody(),
            stats.merkle_root == self@.root,
    {
        proof {
            let d = self.total_deposits as int;
            let w = self.total_withdrawals as int;
            let a = self.deposit_amount as int;
            assert((d - w) * a <= pow2(self@.height) * a) by (nonlinear_arith)
                requires
                    0 <= d - w <= pow2(self@.height),
                    a >= 0,
            ;
        }
        let current_balance = (self.total_deposits - self.total_withdrawals)
            * self.deposit_amount;
        PoolStats {
            pool_type: self.pool_type,
            deposit_amount: self.deposit_amount,
            total_deposits: self.total_deposits,
            total_withdrawals: self.total_withdrawals,
            current_balance,
            merkle_root: self.merkle_root,
        }
    }
}

/// Law: the root is a deterministic function of the deposited commitment
/// sequence — two pools of equal height holding the same commitments in the
/// same order carry the same root, so re-running a deposit sequence
/// reproduces the root.
pub proof fn lemma_root_deterministic(a: Pool, b: Pool)
    requires
        a.wf(),
        b.wf(),
        a@.leaves == b@.leaves,
        a@.height == b@.height,
    ensures
        a@.root == b@.root,
{
}

/// Law: leaf indices are assigned injectively. `deposit` assigns exactly the
/// pool's leaf count as the index and grows that count by one, and no
/// operation ever shrinks it; so a deposit made at or after the state a
/// previous deposit produced receives a strictly larger index.
pub proof fn lemma_leaf_index_injective(
    index_of_first: nat,
    leaves_after_first: nat,
    index_of_second: nat,
)
    requires
        leaves_after_first == index_of_first + 1,
        index_of_second >= leaves_after_first,
    ensures
        index_of_second != index_of_first,
{
}

} // verus!
