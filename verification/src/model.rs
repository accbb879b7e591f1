use vstd::prelude::*;
use crate::hash_fn::keccak256_of;
use crate::hash_pair::{combine, lemma_combine_commutes};

verus! {

/// Two to the power `k`.
pub open spec fn pow2(k: nat) -> nat
    decreases k,
{
    if k == 0 {
        1
    } else {
        2 * pow2((k - 1) as nat)
    }
}

/// The number of tree levels above the leaves for `n` items: the
/// ceiling of log2(max(n, 1)).
pub open spec fn clog2(n: nat) -> nat
    decreases n,
{
    if n <= 1 {
        0
    } else {
        1 + clog2(((n + 1) / 2) as nat)
    }
}

/// The number of leaf slots of a tree built from `n` items: the
/// smallest power of two that is at least `max(n, 1)`.
pub open spec fn leaf_count_of(n: nat) -> nat {
    pow2(clog2(n))
}

/// The number of internal nodes of a tree built from `n` items.
pub open spec fn internal_count_of(n: nat) -> nat {
    (leaf_count_of(n) - 1) as nat
}

/// The size of the node array of a tree built from `n` items.
pub open spec fn node_count_of(n: nat) -> nat {
    (2 * leaf_count_of(n) - 1) as nat
}

pub proof fn lemma_pow2_pos(k: nat)
    ensures
        pow2(k) >= 1,
    decreases k,
{
    if k > 0 {
        lemma_pow2_pos((k - 1) as nat);
    }
}

pub proof fn lemma_pow2_le(k1: nat, k2: nat)
    requires
        k1 <= k2,
    ensures
        pow2(k1) <= pow2(k2),
    decreases k2,
{
    if k1 < k2 {
        lemma_pow2_le(k1, (k2 - 1) as nat);
        lemma_pow2_pos((k2 - 1) as nat);
    }
}

/// `leaf_count_of(n)` is large enough to hold every item.
pub proof fn lemma_leaf_count_lower(n: nat)
    ensures
        leaf_count_of(n) >= n,
        leaf_count_of(n) >= 1,
    decreases n,
{
    if n <= 1 {
    } else {
        let m = ((n + 1) / 2) as nat;
        lemma_leaf_count_lower(m);
        assert(leaf_count_of(n) == 2 * leaf_count_of(m));
        assert(2 * m >= n);
    }
}

/// No smaller power of two than `leaf_count_of(n)` holds `n` items:
/// any `2^k >= max(n, 1)` has `k >= clog2(n)`.
pub proof fn lemma_clog2_minimal(n: nat, k: nat)
    requires
        pow2(k) >= n,
    ensures
        clog2(n) <= k,
    decreases n,
{
    if n <= 1 {
    } else {
        if k == 0 {
            assert(pow2(0) == 1);
        }
        let m = ((n + 1) / 2) as nat;
        assert(pow2(k) == 2 * pow2((k - 1) as nat));
        assert(pow2((k - 1) as nat) >= m) by {
            if pow2((k - 1) as nat) < m {
                assert(2 * pow2((k - 1) as nat) <= 2 * m - 2);
                assert(2 * m <= n + 1);
            }
        }
        lemma_clog2_minimal(m, (k - 1) as nat);
    }
}

/// A leaf count computed for a node array whose length fits in usize
/// stays on the machine-representable side: for `n` at most
/// `usize::MAX / 2 + 1`, the leaf count is bounded the same way, so the
/// node array length `2 * leaf_count_of(n) - 1` fits in usize.
pub proof fn lemma_leaf_count_fits(n: nat)
    requires
        n <= usize::MAX as nat / 2 + 1,
    ensures
        leaf_count_of(n) <= usize::MAX as nat / 2 + 1,
{
    if usize::MAX == 0xFFFF_FFFF {
        assert(pow2(31) == 0x8000_0000) by {
            reveal_with_fuel(pow2, 32);
        }
        lemma_clog2_minimal(n, 31);
        lemma_pow2_le(clog2(n), 31);
    } else {
        assert(usize::MAX == 0xFFFF_FFFF_FFFF_FFFF);
        assert(pow2(63) == 0x8000_0000_0000_0000) by {
            reveal_with_fuel(pow2, 64);
        }
        lemma_clog2_minimal(n, 63);
        lemma_pow2_le(clog2(n), 63);
    }
}

/// The item standing at leaf slot `j` once the input is padded with
/// empty items up to the leaf count.
pub open spec fn padded_item(items: Seq<Seq<u8>>, j: int) -> Seq<u8> {
    if 0 <= j < items.len() {
        items[j]
    } else {
        Seq::empty()
    }
}

/// The digest of node `v` in the implicit array layout of a tree with
/// `leaf_count` leaves: node 0 is the root, node `v`'s children are at
/// `2v+1` and `2v+2`, and the last `leaf_count` slots are the leaves.
pub open spec fn node_digest(items: Seq<Seq<u8>>, leaf_count: nat, v: nat) -> Seq<u8>
    decreases 2 * leaf_count - 1 - v,
{
    if v + 1 >= leaf_count {
        keccak256_of(padded_item(items, v - (leaf_count - 1)))
    } else {
        combine(
            node_digest(items, leaf_count, (2 * v + 1) as nat),
            node_digest(items, leaf_count, (2 * v + 2) as nat),
        )
    }
}

/// The committed digest of the whole tree: the digest of node 0.
pub open spec fn root_digest(items: Seq<Seq<u8>>) -> Seq<u8> {
    node_digest(items, leaf_count_of(items.len()), 0)
}

/// The sibling of node `v`: the other child of `v`'s parent.
pub open spec fn sibling_index(v: nat) -> nat {
    if v % 2 == 0 {
        (v - 1) as nat
    } else {
        (v + 1) as nat
    }
}

/// The parent of node `v`.
pub open spec fn parent_index(v: nat) -> nat {
    (((v - 1) as int) / 2) as nat
}

/// The inclusion proof for the leaf at node array position `v`: the
/// digests of the siblings met walking from `v` up to (excluding) the
/// root, leaf-level first.
pub open spec fn sibling_path(items: Seq<Seq<u8>>, leaf_count: nat, v: nat) -> Seq<Seq<u8>>
    decreases v,
{
    if v == 0 {
        Seq::empty()
    } else {
        seq![node_digest(items, leaf_count, sibling_index(v))] + sibling_path(
            items,
            leaf_count,
            parent_index(v),
        )
    }
}

/// The digest a verifier recomputes from a starting digest and a proof:
/// each proof entry is combined, in order, into the running digest.
pub open spec fn fold_digests(h: Seq<u8>, path: Seq<Seq<u8>>) -> Seq<u8>
    decreases path.len(),
{
    if path.len() == 0 {
        h
    } else {
        fold_digests(combine(h, path[0]), path.drop_first())
    }
}

/// Folding the sibling path of any node over that node's own digest
/// recomputes the root digest.
proof fn lemma_fold_sibling_path(items: Seq<Seq<u8>>, leaf_count: nat, v: nat)
    requires
        leaf_count >= 1,
        v < 2 * leaf_count - 1,
    ensures
        fold_digests(
            node_digest(items, leaf_count, v),
            sibling_path(items, leaf_count, v),
        ) == node_digest(items, leaf_count, 0),
    decreases v,
{
    if v > 0 {
        let p = parent_index(v);
        let w = sibling_index(v);
        assert(p < leaf_count - 1);
        if v % 2 == 0 {
            assert(v == 2 * p + 2);
            assert(w == 2 * p + 1);
            lemma_combine_commutes(
                node_digest(items, leaf_count, v),
                node_digest(items, leaf_count, w),
            );
        } else {
            assert(v == 2 * p + 1);
            assert(w == 2 * p + 2);
        }
        assert(combine(node_digest(items, leaf_count, v), node_digest(items, leaf_count, w))
            == node_digest(items, leaf_count, p));
        let path = sibling_path(items, leaf_count, v);
        assert(path[0] == node_digest(items, leaf_count, w));
        assert(path.drop_first() =~= sibling_path(items, leaf_count, p));
        lemma_fold_sibling_path(items, leaf_count, p);
    }
}

/// An inclusion proof extracted for item `i` recomputes the root
/// digest when folded over that item's own leaf digest.
pub proof fn lemma_proof_round_trip(items: Seq<Seq<u8>>, i: int)
    requires
        0 <= i < items.len(),
    ensures
        fold_digests(
            keccak256_of(items[i]),
            sibling_path(
                items,
                leaf_count_of(items.len()),
                (internal_count_of(items.len()) + i) as nat,
            ),
        ) == root_digest(items),
{
    let lc = leaf_count_of(items.len());
    lemma_leaf_count_lower(items.len());
    let v = (lc - 1 + i) as nat;
    assert(node_digest(items, lc, v) == keccak256_of(padded_item(items, i)));
    lemma_fold_sibling_path(items, lc, v);
}

/// The length of the sibling path of any node whose one-based position
/// lies in level `k` of the tree.
proof fn lemma_path_len_range(items: Seq<Seq<u8>>, leaf_count: nat, v: nat, k: nat)
    requires
        pow2(k) <= v + 1 < pow2(k + 1),
    ensures
        sibling_path(items, leaf_count, v).len() == k,
    decreases k,
{
    if k == 0 {
        assert(v == 0);
    } else {
        lemma_pow2_pos((k - 1) as nat);
        assert(pow2(k) == 2 * pow2((k - 1) as nat));
        assert(pow2(k + 1) == 2 * pow2(k));
        assert(v >= 1);
        let p = parent_index(v);
        assert(p + 1 == (v + 1) / 2);
        assert(pow2((k - 1) as nat) <= p + 1 < pow2(k));
        lemma_path_len_range(items, leaf_count, p, (k - 1) as nat);
        assert(sibling_path(items, leaf_count, v).len()
            == 1 + sibling_path(items, leaf_count, p).len());
    }
}

/// Every proof extracted for a leaf of a tree built from `n` items has
/// length ceil(log2(max(n, 1))) exactly.
pub proof fn lemma_proof_length(items: Seq<Seq<u8>>, i: int)
    requires
        0 <= i < leaf_count_of(items.len()),
    ensures
        sibling_path(
            items,
            leaf_count_of(items.len()),
            (internal_count_of(items.len()) + i) as nat,
        ).len() == clog2(items.len()),
{
    let k = clog2(items.len());
    let lc = leaf_count_of(items.len());
    lemma_leaf_count_lower(items.len());
    let v = (lc - 1 + i) as nat;
    assert(pow2(k + 1) == 2 * pow2(k));
    assert(pow2(k) <= v + 1 < pow2(k + 1));
    lemma_path_len_range(items, lc, v, k);
}

} // verus!
