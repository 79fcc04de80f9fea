//! The digest type of the pool and the node-combining hash of the accumulator.

use vstd::prelude::*;

verus! {

/// What keccak-256 returns for the concatenation `left || right` of two
/// 32-byte digests. The digest is a function of the two inputs alone; its
/// value is not axiomatized further.
pub uninterp spec fn spec_hash_pair(left: [u8; 32], right: [u8; 32]) -> [u8; 32];

/// Relies on `anchor_lang::solana_program::keccak::hashv`: keccak-256 over the
/// concatenation of the given byte slices, returned as a 32-byte digest.
#[verifier::external_body]
pub(crate) fn hash_pair(left: &[u8; 32], right: &[u8; 32]) -> (out: [u8; 32])
    ensures
        out == spec_hash_pair(*left, *right),
{
    anchor_lang::solana_program::keccak::hashv(&[left, right]).to_bytes()
}

/// The all-zero digest: the root of an empty pool and the stand-in for a
/// missing right sibling while a subtree is still partially filled.
pub fn zero_digest() -> (out: [u8; 32])
    ensures
        out == spec_zero_digest(),
{
    [0u8; 32]
}

/// The all-zero digest, as a spec-level value.
pub open spec fn spec_zero_digest() -> [u8; 32] {
    vstd::array::spec_array_fill_for_copy_type::<u8, 32>(0u8)
}

/// Byte-for-byte equality of two digests.
pub fn digest_eq(a: &[u8; 32], b: &[u8; 32]) -> (r: bool)
    ensures
        r == (*a == *b),
{
    let mut i: usize = 0;
    while i < 32
        invariant
            0 <= i <= 32,
            forall|j: int| 0 <= j < i ==> a@[j] == b@[j],
        decreases 32 - i,
    {
        if a[i] != b[i] {
            assert(a@[i as int] != b@[i as int]);
            return false;
        }
        i += 1;
    }
    assert(*a =~= *b);
    true
}

} // verus!
