//! The withdrawal proof verifier: a pluggable capability that checks an
//! opaque proof against the exact (root, nullifier, recipient, fee) binding,
//! so a proof cannot be replayed for a different recipient or fee, nor
//! against a stale root.

use vstd::prelude::*;
use crate::hash::digest_eq;

verus! {

/// An opaque withdrawal proof: three fixed-size byte blobs, sized for the
/// group elements of a pairing-based scheme. The pool never interprets them;
/// they are handed verbatim to the verifier.
#[derive(Clone, Copy, Debug)]
pub struct ZkProof {
    pub a: [u8; 64],
    pub b: [u8; 128],
    pub c: [u8; 64],
}

/// Byte-for-byte equality of two byte strings.
pub fn bytes_eq(a: &[u8], b: &[u8]) -> (r: bool)
    ensures
        r == (a@ == b@),
{
    if a.len() != b.len() {
        return false;
    }
    let mut i: usize = 0;
    while i < a.len()
        invariant
            a@.len() == b@.len(),
            i <= a@.len(),
            forall|j: int| 0 <= j < i ==> a@[j] == b@[j],
        decreases a@.len() - i,
    {
        if a[i] != b[i] {
            assert(a@[i as int] != b@[i as int]);
            return false;
        }
        i += 1;
    }
    proof {
        assert(a@ =~= b@);
    }
    true
}

/// Structural equality of two proofs.
pub fn proof_eq(x: &ZkProof, y: &ZkProof) -> (r: bool)
    ensures
        r == (*x == *y),
{
    let r = bytes_eq(x.a.as_slice(), y.a.as_slice())
        && bytes_eq(x.b.as_slice(), y.b.as_slice())
        && bytes_eq(x.c.as_slice(), y.c.as_slice());
    proof {
        if r {
            assert(x.a =~= y.a);
            assert(x.b =~= y.b);
            assert(x.c =~= y.c);
        }
    }
    r
}

/// A capability that decides whether a proof authorizes a withdrawal bound
/// to exactly this quadruple of public inputs. Implementations must fail
/// closed: a malformed proof, a missing verifying key or any internal error
/// is a rejection, never a retryable signal.
pub trait ProofVerifier {
    /// The verdict of this verifier on the given proof and binding: a pure
    /// function of the proof and the exact (root, nullifier, recipient, fee)
    /// quadruple.
    spec fn accepts(
        &self,
        zk_proof: ZkProof,
        root: [u8; 32],
        nullifier_hash: [u8; 32],
        recipient: [u8; 32],
        fee: u64,
    ) -> bool;

    /// Check the proof against the exact binding.
    fn verify(
        &self,
        zk_proof: &ZkProof,
        root: &[u8; 32],
        nullifier_hash: &[u8; 32],
        recipient: &[u8; 32],
        fee: u64,
    ) -> (r: bool)
        ensures
            r == self.accepts(*zk_proof, *root, *nullifier_hash, *recipient, fee),
    ;
}

/// The fail-closed default: with no verifying key configured, every
/// withdrawal proof is rejected.
pub struct RejectingVerifier {}

impl ProofVerifier for RejectingVerifier {
    open spec fn accepts(
        &self,
        zk_proof: ZkProof,
        root: [u8; 32],
        nullifier_hash: [u8; 32],
        recipient: [u8; 32],
        fee: u64,
    ) -> bool {
        false
    }

    fn verify(
        &self,
        zk_proof: &ZkProof,
        root: &[u8; 32],
        nullifier_hash: &[u8; 32],
        recipient: &[u8; 32],
        fee: u64,
    ) -> (r: bool) {
        false
    }
}

/// A verifier pinned to a single authorized statement: it accepts exactly
/// one proof bound to one (root, nullifier, recipient, fee) quadruple, and
/// rejects everything else. It makes the binding requirement concrete — any
/// change to any component of the statement is a rejection — and serves
/// harnesses and settings where a statement is authorized out of band.
pub struct PinnedVerifier {
    pub expected: ZkProof,
    pub root: [u8; 32],
    pub nullifier_hash: [u8; 32],
    pub recipient: [u8; 32],
    pub fee: u64,
}

impl PinnedVerifier {
    /// Pin the one statement this verifier will accept.
    pub fn new(
        expected: ZkProof,
        root: [u8; 32],
        nullifier_hash: [u8; 32],
        recipient: [u8; 32],
        fee: u64,
    ) -> (v: PinnedVerifier)
        ensures
            v.expected == expected,
            v.root == root,
            v.nullifier_hash == nullifier_hash,
            v.recipient == recipient,
            v.fee == fee,
    {
        PinnedVerifier { expected, root, nullifier_hash, recipient, fee }
    }
}

impl ProofVerifier for PinnedVerifier {
    open spec fn accepts(
        &self,
        zk_proof: ZkProof,
        root: [u8; 32],
        nullifier_hash: [u8; 32],
        recipient: [u8; 32],
        fee: u64,
    ) -> bool {
        &&& zk_proof == self.expected
        &&& root == self.root
        &&& nullifier_hash == self.nullifier_hash
        &&& recipient == self.recipient
        &&& fee == self.fee
    }

    fn verify(
        &self,
        zk_proof: &ZkProof,
        root: &[u8; 32],
        nullifier_hash: &[u8; 32],
        recipient: &[u8; 32],
        fee: u64,
    ) -> (r: bool) {
        proof_eq(zk_proof, &self.expected) && digest_eq(root, &self.root)
            && digest_eq(nullifier_hash, &self.nullifier_hash)
            && digest_eq(recipient, &self.recipient) && fee == self.fee
    }
}

/// Law: a verifier pinned to one statement binds its verdict to that exact
/// statement — whatever it accepts agrees with the pinned proof and the
/// pinned (root, nullifier, recipient, fee) in every component.
pub proof fn lemma_pinned_verifier_binds(
    v: PinnedVerifier,
    zk_proof: ZkProof,
    root: [u8; 32],
    nullifier_hash: [u8; 32],
    recipient: [u8; 32],
    fee: u64,
)
    requires
        v.accepts(zk_proof, root, nullifier_hash, recipient, fee),
    ensures
        zk_proof == v.expected,
        root == v.root,
        nullifier_hash == v.nullifier_hash,
        recipient == v.recipient,
        fee == v.fee,
{
}

} // verus!
