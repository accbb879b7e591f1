//! A binary Merkle tree over an ordered collection of byte records,
//! with compact inclusion proofs verified against the root digest.
//! Pair hashing is order-independent: the two digests are sorted
//! byte-lexicographically before being combined, so a proof never needs
//! to record whether a sibling was the left or the right child.

pub mod data;
pub mod hash;
pub mod hash_fn;
pub mod hash_pair;
pub mod model;
pub mod root;

use vstd::prelude::*;
use crate::data::{items_view, MerkleTreeData};
use crate::hash::{digests_view, MerkleTreeHash};
use crate::hash_fn::{keccak256, keccak256_of};
use crate::hash_pair::combine_hashes;
use crate::model::{
    clog2, internal_count_of, leaf_count_of, lemma_clog2_minimal, lemma_leaf_count_fits,
    lemma_leaf_count_lower,
    lemma_pow2_le, lemma_proof_length, node_count_of, node_digest, padded_item, pow2, root_digest,
    sibling_path,
};
use crate::root::{MerkleTreeProof, MerkleTreeRoot};

verus! {

/// The number of leaf slots of a tree built from `n` items: the
/// smallest power of two that is at least `max(n, 1)`. The whole node
/// array then has `2 * leaf_count(n) - 1` entries.
pub fn leaf_count(n: usize) -> (lc: usize)
    requires
        n <= usize::MAX / 2 + 1,
    ensures
        lc == leaf_count_of(n as nat),
        lc <= usize::MAX / 2 + 1,
{
    let mut st: usize = 1;
    let ghost mut k: nat = 0;
    proof {
        lemma_leaf_count_lower(n as nat);
    }
    while st < n
        invariant
            n <= usize::MAX / 2 + 1,
            1 <= st,
            pow2(k) == st,
            pow2(k) <= leaf_count_of(n as nat),
        decreases 2 * n - st,
    {
        proof {
            assert(pow2(k) < n as nat);
            assert(clog2(n as nat) >= k + 1) by {
                if clog2(n as nat) <= k {
                    lemma_pow2_le(clog2(n as nat), k);
                    lemma_leaf_count_lower(n as nat);
                }
            }
            lemma_pow2_le(k + 1, clog2(n as nat));
            assert(pow2(k + 1) == 2 * pow2(k));
            k = k + 1;
        }
        st = st * 2;
    }
    proof {
        lemma_clog2_minimal(n as nat, k);
        lemma_pow2_le(clog2(n as nat), k);
        lemma_leaf_count_fits(n as nat);
    }
    st
}

/// A tree built from a batch of items: the committed root digest and
/// one inclusion proof per original item, in item order.
pub struct MerkleTree {
    pub root: MerkleTreeRoot,
    pub proofs: Vec<MerkleTreeProof>,
}

impl MerkleTree {
    /// Builds the padded complete binary tree over `items`, computing
    /// every node digest bottom-up, and extracts the sibling path of
    /// each original item. An empty input yields a one-leaf tree over
    /// a single padding item and no proofs.
    pub fn build(items: &Vec<MerkleTreeData>) -> (tree: MerkleTree)
        requires
            items@.len() <= usize::MAX / 2 + 1,
        ensures
            tree.root.hash@ == root_digest(items_view(items@)),
            tree.proofs@.len() == items@.len(),
            forall|i: int|
                0 <= i < items@.len() ==> digests_view(#[trigger] tree.proofs@[i]@)
                    == sibling_path(
                    items_view(items@),
                    leaf_count_of(items@.len()),
                    (internal_count_of(items@.len()) + i) as nat,
                ),
            forall|i: int|
                0 <= i < items@.len() ==> (#[trigger] tree.proofs@[i]@).len() == clog2(
                    items@.len(),
                ),
    {
        let ghost iv = items_view(items@);
        let n = items.len();
        let st = leaf_count(n);
        proof {
            lemma_leaf_count_lower(n as nat);
        }
        let internal = st - 1;
        let total = internal + st;
        proof {
            assert(total as nat == node_count_of(n as nat));
        }

        let zero: MerkleTreeHash = [0u8; 32];
        let mut nodes: Vec<MerkleTreeHash> = Vec::new();
        while nodes.len() < total
            invariant
                nodes@.len() <= total,
            decreases total - nodes@.len(),
        {
            nodes.push(zero);
        }

        let empty_item: MerkleTreeData = Vec::new();
        proof {
            assert(empty_item@ =~= Seq::<u8>::empty());
        }
        let mut i: usize = 0;
        while i < st
            invariant
                i <= st,
                empty_item@ == Seq::<u8>::empty(),
                nodes@.len() == total,
                st == leaf_count_of(n as nat),
                internal == st - 1,
                total == internal + st,
                n == items@.len(),
                iv == items_view(items@),
                forall|j: int|
                    0 <= j < i ==> (#[trigger] nodes@[internal + j])@ == node_digest(
                        iv,
                        st as nat,
                        (internal + j) as nat,
                    ),
            decreases st - i,
        {
            let h = if i < n {
                keccak256(items[i].as_slice())
            } else {
                keccak256(empty_item.as_slice())
            };
            proof {
                assert(iv.len() == items@.len());
                if i < n {
                    assert(iv[i as int] == items@[i as int]@);
                } else {
                    assert(empty_item@ =~= Seq::<u8>::empty());
                }
                assert(h@ == keccak256_of(padded_item(iv, i as int)));
            }
            nodes[internal + i] = h;
            i += 1;
        }

        proof {
            assert forall|j: int| internal <= j < total implies (#[trigger] nodes@[j])@
                == node_digest(iv, st as nat, j as nat) by {
                let jj = j - internal;
                assert(nodes@[internal + jj]@ == node_digest(
                    iv,
                    st as nat,
                    (internal + jj) as nat,
                ));
            }
        }
        let mut v: usize = internal;
        while v > 0
            invariant
                v <= internal,
                nodes@.len() == total,
                st == leaf_count_of(n as nat),
                internal == st - 1,
                total == internal + st,
                n == items@.len(),
                iv == items_view(items@),
                forall|j: int|
                    v <= j < total ==> (#[trigger] nodes@[j])@ == node_digest(
                        iv,
                        st as nat,
                        j as nat,
                    ),
            decreases v,
        {
            v -= 1;
            let left = nodes[2 * v + 1];
            let right = nodes[2 * v + 2];
            let h = combine_hashes(&left, &right);
            nodes[v] = h;
        }

        let mut proofs: Vec<MerkleTreeProof> = Vec::new();
        let mut idx: usize = 0;
        while idx < n
            invariant
                idx <= n,
                proofs@.len() == idx,
                nodes@.len() == total,
                st == leaf_count_of(n as nat),
                internal == st - 1,
                total == internal + st,
                n == items@.len(),
                n <= st,
                iv == items_view(items@),
                forall|j: int|
                    0 <= j < total ==> (#[trigger] nodes@[j])@ == node_digest(
                        iv,
                        st as nat,
                        j as nat,
                    ),
                forall|t: int|
                    0 <= t < idx ==> digests_view(#[trigger] proofs@[t]@) == sibling_path(
                        iv,
                        st as nat,
                        (internal + t) as nat,
                    ),
            decreases n - idx,
        {
            let mut path: MerkleTreeProof = Vec::new();
            let mut p: usize = idx + internal;
            proof {
                assert(digests_view(path@) + sibling_path(iv, st as nat, p as nat) =~= sibling_path(
                    iv,
                    st as nat,
                    p as nat,
                ));
            }
            while p > 0
                invariant
                    p < total,
                    nodes@.len() == total,
                    st == leaf_count_of(n as nat),
                    internal == st - 1,
                    total == internal + st,
                    idx < n <= st,
                    n == items@.len(),
                    iv == items_view(items@),
                    forall|j: int|
                        0 <= j < total ==> (#[trigger] nodes@[j])@ == node_digest(
                            iv,
                            st as nat,
                            j as nat,
                        ),
                    digests_view(path@) + sibling_path(iv, st as nat, p as nat) == sibling_path(
                        iv,
                        st as nat,
                        (internal + idx) as nat,
                    ),
                decreases p,
            {
                let w = if p % 2 == 0 {
                    p - 1
                } else {
                    p + 1
                };
                let ghost old_path = path@;
                path.push(nodes[w]);
                proof {
                    assert(digests_view(path@) =~= digests_view(old_path) + seq![nodes@[w as int]@]);
                    assert(digests_view(path@) + sibling_path(
                        iv,
                        st as nat,
                        ((p - 1) as int / 2) as nat,
                    ) =~= digests_view(old_path) + sibling_path(iv, st as nat, p as nat));
                }
                p = (p - 1) / 2;
            }
            proof {
                assert(digests_view(path@) + sibling_path(iv, st as nat, 0) =~= digests_view(
                    path@,
                ));
            }
            proofs.push(path);
            idx += 1;
        }

        let root_hash = nodes[0];
        proof {
            assert(iv.len() == items@.len());
            assert forall|t: int| 0 <= t < n implies (#[trigger] proofs@[t]@).len() == clog2(
                items@.len(),
            ) by {
                lemma_proof_length(iv, t);
                assert(digests_view(proofs@[t]@).len() == proofs@[t]@.len());
            }
        }
        MerkleTree { root: MerkleTreeRoot::new(root_hash), proofs }
    }
}

} // verus!
