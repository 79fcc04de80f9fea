//! The deposit and withdraw workflows: rejection order, exact fee splits,
//! custody accounting and the capacity boundary.

use rift_mixer::errors::MixerError;
use rift_mixer::pool::{get_deposit_amount, Pool, PoolType};
use rift_mixer::zkproof::{PinnedVerifier, ProofVerifier, RejectingVerifier, ZkProof};

fn sample_proof() -> ZkProof {
    ZkProof { a: [0xaa; 64], b: [0xbb; 128], c: [0xcc; 64] }
}

/// A pool of denomination 100 base units holding at most 4 deposits.
fn small_pool() -> Pool {
    Pool::new(PoolType::Sol1, 100, 2)
}

#[test]
fn deposit_assigns_sequential_indices() {
    let mut pool = small_pool();
    let e0 = pool.deposit([1u8; 32], 1000).unwrap();
    let e1 = pool.deposit([2u8; 32], 1001).unwrap();
    assert_eq!(e0.leaf_index, 0);
    assert_eq!(e1.leaf_index, 1);
    assert_ne!(e0.leaf_index, e1.leaf_index);
    assert_eq!(e0.commitment, [1u8; 32]);
    assert_eq!(e0.timestamp, 1000);
    assert_eq!(e0.pool_type, PoolType::Sol1);
}

#[test]
fn duplicate_commitment_rejected_and_state_unchanged() {
    let mut pool = small_pool();
    pool.deposit([7u8; 32], 0).unwrap();
    let root_before = pool.merkle_root;
    let stats_before = pool.get_pool_stats();

    let second = pool.deposit([7u8; 32], 99);
    assert_eq!(second.unwrap_err(), MixerError::CommitmentAlreadyUsed);

    assert_eq!(pool.merkle_root, root_before);
    let stats_after = pool.get_pool_stats();
    assert_eq!(stats_after.total_deposits, stats_before.total_deposits);
    assert_eq!(stats_after.current_balance, stats_before.current_balance);
}

#[test]
fn capacity_boundary_last_deposit_succeeds_next_fails() {
    let mut pool = small_pool();
    // capacity of a height-2 pool is 4
    for i in 0..3u8 {
        pool.deposit([i; 32], 0).unwrap();
    }
    let last = pool.deposit([3u8; 32], 0).unwrap();
    assert_eq!(last.leaf_index, 3);
    let overflow = pool.deposit([4u8; 32], 0);
    assert_eq!(overflow.unwrap_err(), MixerError::PoolFull);
    assert_eq!(pool.get_pool_stats().total_deposits, 4);
}

#[test]
fn deposit_then_withdraw_splits_denomination_exactly() {
    let mut pool = small_pool();
    pool.deposit([1u8; 32], 0).unwrap();
    assert_eq!(pool.get_pool_stats().current_balance, 100);

    let zkp = sample_proof();
    let nullifier = [20u8; 32];
    let recipient = [30u8; 32];
    let relayer = [40u8; 32];
    let v = PinnedVerifier::new(zkp, pool.merkle_root, nullifier, recipient, 5);
    let ev = pool
        .withdraw(&v, &zkp, nullifier, recipient, Some(relayer), 5, 7)
        .unwrap();
    assert_eq!(ev.recipient_amount, 95);
    assert_eq!(ev.fee, 5);
    assert_eq!(ev.recipient_amount + ev.fee, 100);
    assert_eq!(ev.nullifier_hash, nullifier);
    assert_eq!(ev.relayer, Some(relayer));
    assert_eq!(ev.timestamp, 7);

    let stats = pool.get_pool_stats();
    assert_eq!(stats.total_withdrawals, 1);
    assert_eq!(stats.current_balance, 0);
}

#[test]
fn withdraw_without_relayer_ignores_fee() {
    let mut pool = small_pool();
    pool.deposit([1u8; 32], 0).unwrap();
    let zkp = sample_proof();
    let nullifier = [21u8; 32];
    let recipient = [31u8; 32];
    // the requested fee exceeds the denomination, but with no relayer the
    // relayer fee is zero and the whole denomination goes to the recipient
    let v = PinnedVerifier::new(zkp, pool.merkle_root, nullifier, recipient, 500);
    let ev = pool.withdraw(&v, &zkp, nullifier, recipient, None, 500, 0).unwrap();
    assert_eq!(ev.fee, 0);
    assert_eq!(ev.recipient_amount, 100);
}

#[test]
fn spent_nullifier_rejected_regardless_of_proof_and_no_funds_move() {
    let mut pool = small_pool();
    pool.deposit([1u8; 32], 0).unwrap();
    pool.deposit([2u8; 32], 0).unwrap();
    let zkp = sample_proof();
    let nullifier = [22u8; 32];
    let recipient = [32u8; 32];
    let v = PinnedVerifier::new(zkp, pool.merkle_root, nullifier, recipient, 0);
    pool.withdraw(&v, &zkp, nullifier, recipient, None, 0, 0).unwrap();
    let balance_before = pool.get_pool_stats().current_balance;

    // the verifier still accepts this exact statement, yet the replay fails
    let replay = pool.withdraw(&v, &zkp, nullifier, recipient, None, 0, 1);
    assert_eq!(replay.unwrap_err(), MixerError::NullifierAlreadyUsed);
    assert_eq!(pool.get_pool_stats().current_balance, balance_before);
    assert_eq!(pool.get_pool_stats().total_withdrawals, 1);
}

#[test]
fn rejected_proof_fails_closed() {
    let mut pool = small_pool();
    pool.deposit([1u8; 32], 0).unwrap();
    let zkp = sample_proof();
    let r = pool.withdraw(&RejectingVerifier {}, &zkp, [23u8; 32], [33u8; 32], None, 0, 0);
    assert_eq!(r.unwrap_err(), MixerError::InvalidProof);
    assert_eq!(pool.get_pool_stats().total_withdrawals, 0);
}

#[test]
fn fee_above_denomination_fails_and_leaves_nullifier_unmarked() {
    let mut pool = small_pool();
    pool.deposit([1u8; 32], 0).unwrap();
    let zkp = sample_proof();
    let nullifier = [24u8; 32];
    let recipient = [34u8; 32];
    let relayer = [44u8; 32];

    let v_big = PinnedVerifier::new(zkp, pool.merkle_root, nullifier, recipient, 101);
    let r = pool.withdraw(&v_big, &zkp, nullifier, recipient, Some(relayer), 101, 0);
    assert_eq!(r.unwrap_err(), MixerError::ArithmeticError);
    assert_eq!(pool.get_pool_stats().current_balance, 100);
    assert_eq!(pool.get_pool_stats().total_withdrawals, 0);

    // the nullifier was left unmarked: a corrected request succeeds
    let v_ok = PinnedVerifier::new(zkp, pool.merkle_root, nullifier, recipient, 100);
    let ev = pool.withdraw(&v_ok, &zkp, nullifier, recipient, Some(relayer), 100, 0).unwrap();
    assert_eq!(ev.fee, 100);
    assert_eq!(ev.recipient_amount, 0);
}

#[test]
fn withdrawals_cannot_outrun_deposits() {
    let mut pool = small_pool();
    pool.deposit([1u8; 32], 0).unwrap();
    let zkp = sample_proof();
    let recipient = [35u8; 32];
    let n1 = [25u8; 32];
    let v1 = PinnedVerifier::new(zkp, pool.merkle_root, n1, recipient, 0);
    pool.withdraw(&v1, &zkp, n1, recipient, None, 0, 0).unwrap();

    // custody is empty: even an accepted proof cannot draw more
    let n2 = [26u8; 32];
    let v2 = PinnedVerifier::new(zkp, pool.merkle_root, n2, recipient, 0);
    let r = pool.withdraw(&v2, &zkp, n2, recipient, None, 0, 0);
    assert_eq!(r.unwrap_err(), MixerError::InsufficientCustody);
    assert_eq!(pool.get_pool_stats().total_withdrawals, 1);
}

#[test]
fn pinned_verifier_binds_the_exact_statement() {
    let zkp = sample_proof();
    let root = [50u8; 32];
    let nullifier = [51u8; 32];
    let recipient = [52u8; 32];
    let v = PinnedVerifier::new(zkp, root, nullifier, recipient, 9);
    assert!(v.verify(&zkp, &root, &nullifier, &recipient, 9));
    // any changed component is rejected
    assert!(!v.verify(&zkp, &root, &nullifier, &[53u8; 32], 9));
    assert!(!v.verify(&zkp, &root, &nullifier, &recipient, 10));
    assert!(!v.verify(&zkp, &[54u8; 32], &nullifier, &recipient, 9));
    assert!(!v.verify(&zkp, &root, &[55u8; 32], &recipient, 9));
    let mut other = zkp;
    other.b[0] ^= 1;
    assert!(!v.verify(&other, &root, &nullifier, &recipient, 9));
}

#[test]
fn stale_root_is_rejected_after_a_new_deposit() {
    let mut pool = small_pool();
    pool.deposit([1u8; 32], 0).unwrap();
    let zkp = sample_proof();
    let nullifier = [27u8; 32];
    let recipient = [37u8; 32];
    // the proof is bound to the root before the second deposit
    let v = PinnedVerifier::new(zkp, pool.merkle_root, nullifier, recipient, 0);
    pool.deposit([2u8; 32], 0).unwrap();
    let r = pool.withdraw(&v, &zkp, nullifier, recipient, None, 0, 0);
    assert_eq!(r.unwrap_err(), MixerError::InvalidProof);
}

#[test]
fn tier_amounts_and_tags() {
    assert_eq!(get_deposit_amount(&PoolType::Sol0_1), 100_000_000);
    assert_eq!(get_deposit_amount(&PoolType::Sol1), 1_000_000_000);
    assert_eq!(get_deposit_amount(&PoolType::Sol10), 10_000_000_000);
    assert_eq!(get_deposit_amount(&PoolType::Sol100), 100_000_000_000);
    assert_eq!(PoolType::Sol0_1.to_u8(), 0);
    assert_eq!(PoolType::Sol1.to_u8(), 1);
    assert_eq!(PoolType::Sol10.to_u8(), 2);
    assert_eq!(PoolType::Sol100.to_u8(), 3);
}

#[test]
fn initialize_builds_full_height_pool() {
    let mut pool = Pool::initialize(PoolType::Sol1);
    assert_eq!(pool.merkle_root, [0u8; 32]);
    let stats = pool.get_pool_stats();
    assert_eq!(stats.deposit_amount, 1_000_000_000);
    assert_eq!(stats.total_deposits, 0);
    assert_eq!(stats.current_balance, 0);
    let ev = pool.deposit([9u8; 32], 123).unwrap();
    assert_eq!(ev.leaf_index, 0);
    assert_eq!(pool.get_pool_stats().current_balance, 1_000_000_000);
}
