//! The accumulator's root against roots computed by hand with an independent
//! keccak-256 implementation.

use rift_mixer::merkle::MerkleTree;
use rift_mixer::errors::MixerError;
use tiny_keccak::{Hasher, Keccak};

/// keccak-256 of `left || right`, computed independently of the library.
fn keccak_pair(left: &[u8; 32], right: &[u8; 32]) -> [u8; 32] {
    let mut k = Keccak::v256();
    k.update(left);
    k.update(right);
    let mut out = [0u8; 32];
    k.finalize(&mut out);
    out
}

const ZERO: [u8; 32] = [0u8; 32];

#[test]
fn empty_tree_root_is_zero() {
    let t = MerkleTree::new(2);
    assert_eq!(t.compute_merkle_root(), ZERO);
}

#[test]
fn four_leaf_root_matches_hand_computation() {
    let l0 = [10u8; 32];
    let l1 = [11u8; 32];
    let l2 = [12u8; 32];
    let l3 = [13u8; 32];
    let mut t = MerkleTree::new(2);
    assert_eq!(t.insert(l0), Ok(0));
    assert_eq!(t.insert(l1), Ok(1));
    assert_eq!(t.insert(l2), Ok(2));
    assert_eq!(t.insert(l3), Ok(3));
    let expected = keccak_pair(&keccak_pair(&l0, &l1), &keccak_pair(&l2, &l3));
    assert_eq!(t.compute_merkle_root(), expected);
}

#[test]
fn partial_tree_roots_match_hand_computation() {
    let l0 = [1u8; 32];
    let l1 = [2u8; 32];
    let l2 = [3u8; 32];
    let mut t = MerkleTree::new(2);

    t.insert(l0).unwrap();
    let expected1 = keccak_pair(&keccak_pair(&l0, &ZERO), &ZERO);
    assert_eq!(t.compute_merkle_root(), expected1);

    t.insert(l1).unwrap();
    let expected2 = keccak_pair(&keccak_pair(&l0, &l1), &ZERO);
    assert_eq!(t.compute_merkle_root(), expected2);

    t.insert(l2).unwrap();
    let expected3 = keccak_pair(&keccak_pair(&l0, &l1), &keccak_pair(&l2, &ZERO));
    assert_eq!(t.compute_merkle_root(), expected3);
}

#[test]
fn full_height_single_leaf_root_matches_hand_computation() {
    let leaf = [42u8; 32];
    let mut t = MerkleTree::new(20);
    assert_eq!(t.insert(leaf), Ok(0));
    let mut expected = leaf;
    for _ in 0..20 {
        expected = keccak_pair(&expected, &ZERO);
    }
    assert_eq!(t.compute_merkle_root(), expected);
}

#[test]
fn insert_past_capacity_fails_pool_full() {
    let mut t = MerkleTree::new(1);
    assert_eq!(t.insert([1u8; 32]), Ok(0));
    assert_eq!(t.insert([2u8; 32]), Ok(1));
    assert_eq!(t.insert([3u8; 32]), Err(MixerError::PoolFull));
    // the rejected insert left the tree unchanged
    assert_eq!(t.next_index, 2);
}

#[test]
fn same_sequence_reproduces_same_root() {
    let leaves = [[7u8; 32], [8u8; 32], [9u8; 32]];
    let mut a = MerkleTree::new(3);
    let mut b = MerkleTree::new(3);
    for leaf in leaves.iter() {
        a.insert(*leaf).unwrap();
        b.insert(*leaf).unwrap();
    }
    assert_eq!(a.compute_merkle_root(), b.compute_merkle_root());
}

#[test]
fn root_depends_on_leaf_order() {
    let mut a = MerkleTree::new(2);
    let mut b = MerkleTree::new(2);
    a.insert([1u8; 32]).unwrap();
    a.insert([2u8; 32]).unwrap();
    b.insert([2u8; 32]).unwrap();
    b.insert([1u8; 32]).unwrap();
    let ra = a.compute_merkle_root();
    let rb = b.compute_merkle_root();
    let expected_a = keccak_pair(&keccak_pair(&[1u8; 32], &[2u8; 32]), &ZERO);
    let expected_b = keccak_pair(&keccak_pair(&[2u8; 32], &[1u8; 32]), &ZERO);
    assert_eq!(ra, expected_a);
    assert_eq!(rb, expected_b);
    assert_ne!(ra, rb);
}

#[test]
fn hashing_changes_the_input() {
    // were the tree to hand a leaf through unhashed, the single-leaf root of
    // a height-1 tree would equal keccak(leaf || zero); check it does, and
    // that it differs from the leaf itself
    let leaf = [5u8; 32];
    let mut t = MerkleTree::new(1);
    t.insert(leaf).unwrap();
    let root = t.compute_merkle_root();
    assert_eq!(root, keccak_pair(&leaf, &ZERO));
    assert_ne!(root, leaf);
    assert_ne!(root, ZERO);
}
