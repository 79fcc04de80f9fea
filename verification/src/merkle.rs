//! The incremental Merkle accumulator: an append-only binary hash tree held as
//! its per-level frontier of filled-subtree digests, so that an insert and a
//! root query both take O(height) work instead of rehashing every leaf.

use vstd::prelude::*;
use vstd::arithmetic::power2::{pow2, lemma_pow2_unfold, lemma_pow2_adds, lemma_pow2_pos,
    lemma_pow2_strictly_increases, lemma2_to64};
use vstd::arithmetic::div_mod::{lemma_fundamental_div_mod, lemma_fundamental_div_mod_converse};
use crate::hash::{spec_hash_pair, spec_zero_digest, hash_pair, zero_digest};
use crate::errors::MixerError;
use crate::MERKLE_TREE_HEIGHT;

verus! {

/// One level of the tree hashed up to the next: adjacent digests are combined
/// pairwise, and a digest left without a right neighbour is combined with the
/// zero digest.
pub open spec fn spec_level_up(level: Seq<[u8; 32]>) -> Seq<[u8; 32]> {
    Seq::new((level.len() + 1) / 2, |i: int|
        if 2 * i + 1 < level.len() {
            spec_hash_pair(level[2 * i], level[2 * i + 1])
        } else {
            spec_hash_pair(level[2 * i], spec_zero_digest())
        })
}

/// The root of a tree of the given height over the given leaf sequence: the
/// leaf level hashed upward `height` times, with missing right siblings
/// standing in as the zero digest. The root of an empty tree is the zero
/// digest.
pub open spec fn spec_root_of(leaves: Seq<[u8; 32]>, height: nat) -> [u8; 32]
    decreases height,
{
    if height == 0 {
        if leaves.len() == 0 {
            spec_zero_digest()
        } else {
            leaves[0]
        }
    } else {
        spec_root_of(spec_level_up(leaves), (height - 1) as nat)
    }
}

/// The digest of the complete subtree at the given level whose block index is
/// `j`: it covers leaves `j * 2^level` up to `(j + 1) * 2^level`. Meaningful
/// only while that whole block lies inside the leaf sequence.
pub open spec fn spec_node(level: nat, j: nat, leaves: Seq<[u8; 32]>) -> [u8; 32]
    decreases level,
{
    if level == 0 {
        leaves[j as int]
    } else {
        spec_hash_pair(
            spec_node((level - 1) as nat, 2 * j, leaves),
            spec_node((level - 1) as nat, 2 * j + 1, leaves),
        )
    }
}

/// The root over an empty leaf sequence is the zero digest, whatever the
/// height.
pub proof fn lemma_root_of_empty(leaves: Seq<[u8; 32]>, height: nat)
    requires
        leaves.len() == 0,
    ensures
        spec_root_of(leaves, height) == spec_zero_digest(),
    decreases height,
{
    if height > 0 {
        lemma_root_of_empty(spec_level_up(leaves), (height - 1) as nat);
    }
}

/// A complete subtree's digest reads only the leaves of its own block, so it
/// is unchanged when the leaf sequence grows on the right.
pub proof fn lemma_node_prefix_stable(level: nat, j: nat, s1: Seq<[u8; 32]>, s2: Seq<[u8; 32]>)
    requires
        s1.len() <= s2.len(),
        forall|k: int| 0 <= k < s1.len() ==> s1[k] == s2[k],
        (j + 1) * pow2(level) <= s1.len(),
    ensures
        spec_node(level, j, s1) == spec_node(level, j, s2),
    decreases level,
{
    if level == 0 {
        lemma2_to64();
        assert(s1[j as int] == s2[j as int]);
    } else {
        let l1 = (level - 1) as nat;
        lemma_pow2_unfold(level);
        assert((2 * j + 2) * pow2(l1) == (j + 1) * pow2(level)) by (nonlinear_arith)
            requires pow2(level) == 2 * pow2(l1);
        assert((2 * j + 1 + 1) * pow2(l1) <= s1.len());
        assert((2 * j + 1) * pow2(l1) <= (2 * j + 2) * pow2(l1)) by (nonlinear_arith)
            requires pow2(l1) >= 0;
        lemma_node_prefix_stable(l1, 2 * j, s1, s2);
        lemma_node_prefix_stable(l1, 2 * j + 1, s1, s2);
    }
}

/// Division by a power of two, characterized by the quotient-remainder
/// decomposition.
proof fn lemma_div_by_pow2(x: int, q: int, r: int, e: nat)
    requires
        x == q * pow2(e) + r,
        0 <= r < pow2(e),
    ensures
        x / (pow2(e) as int) == q,
        x % (pow2(e) as int) == r,
{
    lemma_pow2_pos(e);
    lemma_fundamental_div_mod_converse(x, pow2(e) as int, q, r);
}

/// Twice anything is even.
proof fn lemma_even(x: int, h: int)
    requires
        x == 2 * h,
    ensures
        x % 2 == 0,
{
    lemma_fundamental_div_mod_converse(x, 2, h, 0);
}

/// Twice anything plus one is odd.
proof fn lemma_odd(x: int, h: int)
    requires
        x == 2 * h + 1,
    ensures
        x % 2 == 1,
{
    lemma_fundamental_div_mod_converse(x, 2, h, 1);
}

/// The append-only accumulator. Only the frontier (the rightmost completed
/// subtree digest at each level) and the leaf count are stored; the leaf
/// sequence itself is ghost state, reconstructable off-system from emitted
/// deposit records.
pub struct MerkleTree {
    /// The rightmost completed subtree digest at each level, levels 0 through
    /// `height`. Slot `i` is meaningful only while the leaf count has an odd
    /// number of completed level-`i` blocks.
    pub filled_subtrees: Vec<[u8; 32]>,
    /// How many leaves were inserted so far; also the index of the next leaf.
    pub next_index: u64,
    /// Height of the tree: it holds at most `2^height` leaves.
    pub height: usize,
    /// The leaves inserted so far, oldest first.
    pub leaves: Ghost<Seq<[u8; 32]>>,
}

impl MerkleTree {
    /// How many leaves the tree can hold.
    pub open spec fn spec_capacity(self) -> nat {
        pow2(self.height as nat)
    }

    /// The frontier slot at level `i` matches the last completed level-`i`
    /// block whenever the count of completed blocks at that level is odd.
    pub open spec fn frontier_ok_at(self, i: int) -> bool {
        let m = self.leaves@.len() / pow2(i as nat);
        m % 2 == 1 ==> self.filled_subtrees@[i] == spec_node(i as nat, (m - 1) as nat, self.leaves@)
    }

    /// The structural invariant of the accumulator.
    pub open spec fn wf(self) -> bool {
        &&& 1 <= self.height <= MERKLE_TREE_HEIGHT
        &&& self.filled_subtrees@.len() == self.height + 1
        &&& self.leaves@.len() == self.next_index
        &&& self.leaves@.len() <= self.spec_capacity()
        &&& forall|i: int| 0 <= i <= self.height ==> #[trigger] self.frontier_ok_at(i)
    }

    /// An empty accumulator of the given height.
    pub fn new(height: usize) -> (t: MerkleTree)
        requires
            1 <= height <= MERKLE_TREE_HEIGHT,
        ensures
            t.wf(),
            t.height == height,
            t.leaves@ == Seq::<[u8; 32]>::empty(),
            t.next_index == 0,
    {
        let mut filled: Vec<[u8; 32]> = Vec::new();
        let mut i: usize = 0;
        while i < height + 1
            invariant
                i <= height + 1,
                height <= MERKLE_TREE_HEIGHT,
                filled@.len() == i,
            decreases height + 1 - i,
        {
            filled.push(zero_digest());
            i += 1;
        }
        let t = MerkleTree {
            filled_subtrees: filled,
            next_index: 0,
            height,
            leaves: Ghost(Seq::empty()),
        };
        proof {
            assert forall|i: int| 0 <= i <= t.height implies #[trigger] t.frontier_ok_at(i) by {
                lemma_pow2_pos(i as nat);
                assert(t.leaves@.len() / pow2(i as nat) == 0) by {
                    lemma_fundamental_div_mod_converse(0, pow2(i as nat) as int, 0, 0);
                }
            }
        }
        t
    }

    /// How many leaves the tree can hold, as a run-time value.
    pub fn capacity(&self) -> (c: u64)
        requires
            self.height <= MERKLE_TREE_HEIGHT,
        ensures
            c == self.spec_capacity(),
    {
        let mut c: u64 = 1;
        let mut l: usize = 0;
        proof {
            lemma2_to64();
        }
        while l < self.height
            invariant
                l <= self.height,
                self.height <= MERKLE_TREE_HEIGHT,
                c == pow2(l as nat),
            decreases self.height - l,
        {
            proof {
                if (l as nat) < 20 {
                    lemma_pow2_strictly_increases(l as nat, 20);
                }
                lemma2_to64();
                lemma_pow2_unfold((l + 1) as nat);
            }
            c = c * 2;
            l += 1;
        }
        c
    }

    /// Append a leaf as the next frontier position, updating the filled
    /// subtree digest of exactly one level, in O(height) work. Returns the
    /// index the leaf was assigned: the number of leaves inserted before it.
    pub fn insert_leaf(&mut self, leaf: [u8; 32]) -> (index: u64)
        requires
            old(self).wf(),
            old(self).leaves@.len() < old(self).spec_capacity(),
        ensures
            final(self).wf(),
            final(self).height == old(self).height,
            final(self).leaves@ == old(self).leaves@.push(leaf),
            final(self).next_index == old(self).next_index + 1,
            index == old(self).next_index,
    {
        let ghost t0 = *self;
        let ghost n: nat = t0.leaves@.len();
        let ghost leaves2 = t0.leaves@.push(leaf);
        let index = self.next_index;
        let mut cur = leaf;
        let mut idx = self.next_index;
        let mut level: usize = 0;
        proof {
            lemma2_to64();
            assert(n + 1 == (idx + 1) * pow2(0));
            assert(cur == spec_node(0, idx as nat, leaves2));
        }
        while idx % 2 == 1
            invariant
                *self == t0,
                t0.wf(),
                n == t0.leaves@.len(),
                n < pow2(t0.height as nat),
                leaves2 == t0.leaves@.push(leaf),
                level <= t0.height,
                n + 1 == (idx + 1) * pow2(level as nat),
                cur == spec_node(level as nat, idx as nat, leaves2),
            decreases t0.height - level,
        {
            proof {
                lemma_pow2_pos(level as nat);
                if level == t0.height {
                    assert((idx + 1) * pow2(level as nat) >= 2 * pow2(level as nat))
                        by (nonlinear_arith)
                        requires idx + 1 >= 2, pow2(level as nat) > 0;
                    assert(false);
                }
                // The count of completed level-`level` blocks is exactly `idx`,
                // which is odd, so the frontier slot holds the left sibling.
                assert(n == idx * pow2(level as nat) + (pow2(level as nat) - 1))
                    by (nonlinear_arith)
                    requires n + 1 == (idx + 1) * pow2(level as nat), pow2(level as nat) > 0;
                lemma_div_by_pow2(n as int, idx as int, pow2(level as nat) - 1, level as nat);
                assert(t0.frontier_ok_at(level as int));
                assert(t0.filled_subtrees@[level as int]
                    == spec_node(level as nat, (idx - 1) as nat, t0.leaves@));
                assert((idx - 1 + 1) * pow2(level as nat) <= n);
                lemma_node_prefix_stable(level as nat, (idx - 1) as nat, t0.leaves@, leaves2);
            }
            cur = hash_pair(&self.filled_subtrees[level], &cur);
            proof {
                let j = (idx - 1) as nat / 2;
                assert(2 * j == idx - 1 && 2 * j + 1 == idx);
                assert(cur == spec_node((level + 1) as nat, j, leaves2));
                lemma_pow2_unfold((level + 1) as nat);
                assert(n + 1 == (j + 1) * pow2((level + 1) as nat)) by (nonlinear_arith)
                    requires
                        n + 1 == (2 * j + 1 + 1) * pow2(level as nat),
                        pow2((level + 1) as nat) == 2 * pow2(level as nat);
            }
            idx = idx / 2;
            level = level + 1;
        }
        proof {
            lemma_pow2_pos(level as nat);
            if level > t0.height || (level == t0.height && idx > 0) {
                assert((idx + 1) * pow2(level as nat) > pow2(t0.height as nat)) by {
                    if level > t0.height {
                        lemma_pow2_strictly_increases(t0.height as nat, level as nat);
                        assert((idx + 1) * pow2(level as nat) >= 1 * pow2(level as nat))
                            by (nonlinear_arith)
                            requires idx + 1 >= 1, pow2(level as nat) > 0;
                    } else {
                        assert((idx + 1) * pow2(level as nat) >= 2 * pow2(level as nat))
                            by (nonlinear_arith)
                            requires idx + 1 >= 2, pow2(level as nat) > 0;
                    }
                }
                assert(false);
            }
        }
        self.filled_subtrees[level] = cur;
        self.next_index = index + 1;
        proof {
            self.leaves@ = leaves2;
        }
        proof {
            let nn = n + 1;
            let e = level as nat;
            let m_new: int = idx + 1;
            assert(nn == m_new * pow2(e));
            assert(m_new % 2 == 1) by {
                lemma_odd(m_new, idx as int / 2);
            }
            assert forall|i: int| 0 <= i <= self.height implies #[trigger] self.frontier_ok_at(i) by {
                let ei = i as nat;
                lemma_pow2_pos(ei);
                if i < level {
                    // An exact multiple of an even count of level-`i` blocks:
                    // the slot below the written level carries no frontier.
                    lemma_pow2_adds(ei, (e - ei) as nat);
                    let f = pow2((e - ei) as nat) as int;
                    assert(nn == (m_new * f) * pow2(ei)) by (nonlinear_arith)
                        requires
                            nn == m_new * pow2(e),
                            pow2(e) == pow2(ei) * pow2((e - ei) as nat),
                            f == pow2((e - ei) as nat);
                    lemma_div_by_pow2(nn as int, m_new * f, 0, ei);
                    lemma_pow2_unfold((e - ei) as nat);
                    let f2 = pow2((e - ei - 1) as nat) as int;
                    assert(m_new * f == 2 * (m_new * f2)) by (nonlinear_arith)
                        requires f == 2 * f2;
                    lemma_even(m_new * f, m_new * f2);
                    assert(nn as int / pow2(ei) as int % 2 == 0);
                } else if i == level {
                    lemma_div_by_pow2(nn as int, m_new, 0, e);
                    assert(self.filled_subtrees@[i] == cur);
                    assert(self.frontier_ok_at(i));
                } else {
                    // Above the written level the block counts are unchanged
                    // by the insert, and so are the frontier slots.
                    let k = (ei - e) as nat;
                    lemma_pow2_pos(k);
                    lemma_pow2_adds(e, k);
                    let q = m_new / (pow2(k) as int);
                    let s = m_new % (pow2(k) as int);
                    lemma_fundamental_div_mod(m_new, pow2(k) as int);
                    assert(m_new == (pow2(k) as int) * q + s);
                    assert(0 <= s < pow2(k));
                    assert(s % 2 == 1) by {
                        lemma_pow2_unfold(k);
                        let k2 = pow2((k - 1) as nat) as int;
                        assert(s == m_new - 2 * (k2 * q)) by (nonlinear_arith)
                            requires
                                m_new == (pow2(k) as int) * q + s,
                                pow2(k) == 2 * k2;
                        lemma_fundamental_div_mod(m_new, 2);
                        lemma_odd(s, (m_new - 1) / 2 - k2 * q);
                    }
                    assert(s >= 1);
                    assert(nn == q * pow2(ei) + s * pow2(e)) by (nonlinear_arith)
                        requires
                            nn == m_new * pow2(e),
                            m_new == (pow2(k) as int) * q + s,
                            pow2(ei) == pow2(e) * pow2(k);
                    assert(s * pow2(e) >= 1 * pow2(e)) by (nonlinear_arith)
                        requires s >= 1, pow2(e) > 0;
                    assert(s * pow2(e) <= (pow2(k) - 1) * pow2(e)) by (nonlinear_arith)
                        requires s <= pow2(k) - 1, pow2(e) > 0;
                    assert((pow2(k) - 1) * pow2(e) == pow2(ei) - pow2(e)) by (nonlinear_arith)
                        requires pow2(ei) == pow2(e) * pow2(k);
                    lemma_div_by_pow2(nn as int, q, s * pow2(e), ei);
                    lemma_div_by_pow2(n as int, q, s * pow2(e) - 1, ei);
                    assert(t0.frontier_ok_at(i));
                    if q % 2 == 1 {
                        assert(q * pow2(ei) <= n) by (nonlinear_arith)
                            requires
                                nn == q * pow2(ei) + s * pow2(e),
                                s * pow2(e) >= 1,
                                nn == n + 1;
                        lemma_node_prefix_stable(ei, (q - 1) as nat, t0.leaves@, leaves2);
                        assert(self.filled_subtrees@[i] == t0.filled_subtrees@[i]);
                        assert(self.frontier_ok_at(i));
                    }
                }
            }
        }
        index
    }

    /// Append a leaf if there is room, returning its index, or reject with
    /// `PoolFull` when the tree already holds `2^height` leaves.
    pub fn insert(&mut self, leaf: [u8; 32]) -> (r: Result<u64, MixerError>)
        requires
            old(self).wf(),
        ensures
            final(self).wf(),
            final(self).height == old(self).height,
            match r {
                Ok(index) => {
                    &&& old(self).leaves@.len() < old(self).spec_capacity()
                    &&& index == old(self).next_index
                    &&& final(self).leaves@ == old(self).leaves@.push(leaf)
                    &&& final(self).next_index == old(self).next_index + 1
                },
                Err(e) => {
                    &&& e == MixerError::PoolFull
                    &&& old(self).leaves@.len() == old(self).spec_capacity()
                    &&& *final(self) == *old(self)
                },
            },
            (r is Ok) <==> old(self).leaves@.len() < old(self).spec_capacity(),
    {
        let cap = self.capacity();
        if self.next_index >= cap {
            Err(MixerError::PoolFull)
        } else {
            Ok(self.insert_leaf(leaf))
        }
    }

    /// The root over all leaves inserted so far, derived from the frontier
    /// and the leaf count alone, in O(height) work: at each level the
    /// trailing partial digest is combined either with the stored filled
    /// subtree on its left or with the zero digest on its right.
    pub fn compute_merkle_root(&self) -> (root: [u8; 32])
        requires
            self.wf(),
        ensures
            root == spec_root_of(self.leaves@, self.height as nat),
    {
        let n = self.next_index;
        if n == 0 {
            proof {
                lemma_root_of_empty(self.leaves@, self.height as nat);
            }
            return zero_digest();
        }
        let mut cur = zero_digest();
        let mut have = false;
        let mut idx = n;
        let mut level: usize = 0;
        let ghost mut p: Seq<[u8; 32]> = self.leaves@;
        let ghost mut r: int = 0;
        proof {
            lemma2_to64();
        }
        while level < self.height
            invariant
                self.wf(),
                n == self.next_index,
                n == self.leaves@.len(),
                1 <= n <= pow2(self.height as nat),
                level <= self.height,
                n == idx * pow2(level as nat) + r,
                0 <= r < pow2(level as nat),
                p.len() == idx + (if r > 0 { 1int } else { 0int }),
                forall|j: int| 0 <= j < idx
                    ==> p[j] == #[trigger] spec_node(level as nat, j as nat, self.leaves@),
                have <==> r > 0,
                have ==> cur == p[p.len() - 1],
                spec_root_of(self.leaves@, self.height as nat)
                    == spec_root_of(p, (self.height - level) as nat),
            decreases self.height - level,
        {
            let odd = idx % 2 == 1;
            let ghost e = level as nat;
            let ghost m: int = idx as int;
            let ghost m2: int = m / 2;
            let ghost p2 = spec_level_up(p);
            let ghost r2: int = if odd { pow2(e) + r } else { r };
            proof {
                lemma_pow2_pos(e);
                lemma_pow2_unfold((e + 1) as nat);
                if odd {
                    assert(m == 2 * m2 + 1);
                } else {
                    assert(m == 2 * m2);
                }
                assert(n == m2 * pow2((e + 1) as nat) + r2) by (nonlinear_arith)
                    requires
                        n == m * pow2(e) + r,
                        m == 2 * m2 + (if odd { 1int } else { 0int }),
                        r2 == (if odd { pow2(e) + r } else { r }),
                        pow2((e + 1) as nat) == 2 * pow2(e);
                assert(r2 < pow2((e + 1) as nat));
                // The complete level-(e+1) nodes pair up complete level-e nodes.
                assert forall|j: int| 0 <= j < m2
                    implies p2[j] == #[trigger] spec_node((e + 1) as nat, j as nat, self.leaves@) by {
                    assert(2 * j + 1 < m);
                    assert(p2[j] == spec_hash_pair(p[2 * j], p[2 * j + 1]));
                    assert(p[2 * j] == spec_node(e, (2 * j) as nat, self.leaves@));
                    assert(p[2 * j + 1] == spec_node(e, (2 * j + 1) as nat, self.leaves@));
                }
                // The frontier slot at this level, where it is needed.
                if odd {
                    lemma_div_by_pow2(n as int, m, r, e);
                    assert(self.frontier_ok_at(level as int));
                    assert(self.filled_subtrees@[level as int]
                        == spec_node(e, (m - 1) as nat, self.leaves@));
                }
            }
            if have {
                if odd {
                    cur = hash_pair(&self.filled_subtrees[level], &cur);
                    proof {
                        assert(p2.len() == m2 + 1);
                        assert(2 * m2 + 1 < p.len());
                        assert(p2[m2] == spec_hash_pair(p[2 * m2], p[2 * m2 + 1]));
                        assert(p[2 * m2] == spec_node(e, (m - 1) as nat, self.leaves@));
                        assert(cur == p2[m2]);
                    }
                } else {
                    let z = zero_digest();
                    cur = hash_pair(&cur, &z);
                    proof {
                        assert(p2.len() == m2 + 1);
                        assert(2 * m2 + 1 == p.len());
                        assert(p2[m2] == spec_hash_pair(p[2 * m2], spec_zero_digest()));
                        assert(cur == p2[m2]);
                    }
                }
            } else {
                if odd {
                    let z = zero_digest();
                    cur = hash_pair(&self.filled_subtrees[level], &z);
                    have = true;
                    proof {
                        assert(p2.len() == m2 + 1);
                        assert(2 * m2 + 1 == p.len());
                        assert(p2[m2] == spec_hash_pair(p[2 * m2], spec_zero_digest()));
                        assert(p[2 * m2] == spec_node(e, (m - 1) as nat, self.leaves@));
                        assert(cur == p2[m2]);
                    }
                } else {
                    proof {
                        assert(p2.len() == m2);
                    }
                }
            }
            idx = idx / 2;
            level = level + 1;
            proof {
                p = p2;
                r = r2;
            }
        }
        proof {
            let h = self.height as nat;
            lemma_pow2_pos(h);
            if idx >= 2 {
                assert(idx * pow2(h) >= 2 * pow2(h)) by (nonlinear_arith)
                    requires idx >= 2, pow2(h) > 0;
                assert(false);
            }
            if idx == 1 && r > 0 {
                assert(n > pow2(h));
                assert(false);
            }
            if idx == 0 && r == 0 {
                assert(false);
            }
            assert(p.len() == 1);
        }
        if have {
            cur
        } else {
            proof {
                let h = self.height as nat;
                lemma_div_by_pow2(n as int, 1, 0, h);
                assert(self.frontier_ok_at(self.height as int));
            }
            self.filled_subtrees[self.height]
        }
    }
}

} // verus!
