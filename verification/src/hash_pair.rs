use vstd::prelude::*;
use crate::hash::MerkleTreeHash;
use crate::hash_fn::{encode_pair, keccak256, keccak256_of};

verus! {

/// Strict byte-lexicographic order on byte sequences: the order in
/// which `sort_hash_pair` arranges a pair of digests.
pub open spec fn lex_lt(a: Seq<u8>, b: Seq<u8>) -> bool
    decreases a.len(),
{
    if b.len() == 0 {
        false
    } else if a.len() == 0 {
        true
    } else if a[0] < b[0] {
        true
    } else if a[0] > b[0] {
        false
    } else {
        lex_lt(a.drop_first(), b.drop_first())
    }
}

pub proof fn lemma_lex_lt_irreflexive(a: Seq<u8>)
    ensures
        !lex_lt(a, a),
    decreases a.len(),
{
    if a.len() > 0 {
        lemma_lex_lt_irreflexive(a.drop_first());
    }
}

pub proof fn lemma_lex_lt_asymmetric(a: Seq<u8>, b: Seq<u8>)
    ensures
        !(lex_lt(a, b) && lex_lt(b, a)),
    decreases a.len(),
{
    if a.len() > 0 && b.len() > 0 && a[0] == b[0] {
        lemma_lex_lt_asymmetric(a.drop_first(), b.drop_first());
    }
}

pub proof fn lemma_lex_lt_connected(a: Seq<u8>, b: Seq<u8>)
    ensures
        lex_lt(a, b) || lex_lt(b, a) || a == b,
    decreases a.len(),
{
    if a.len() == 0 && b.len() == 0 {
        assert(a =~= b);
    } else if a.len() > 0 && b.len() > 0 && a[0] == b[0] {
        lemma_lex_lt_connected(a.drop_first(), b.drop_first());
        if !lex_lt(a, b) && !lex_lt(b, a) {
            assert(a.drop_first() == b.drop_first());
            assert forall|i: int| 0 <= i < a.len() implies a[i] == b[i] by {
                if i > 0 {
                    assert(a.drop_first()[i - 1] == b.drop_first()[i - 1]);
                }
            }
            assert(a =~= b);
        }
    }
}

/// If the first difference between two equal-length sequences is at
/// index `i` and favours `a`, then `a` is lexicographically smaller.
proof fn lemma_lex_lt_from_index(a: Seq<u8>, b: Seq<u8>, i: int)
    requires
        a.len() == b.len(),
        0 <= i < a.len(),
        forall|j: int| 0 <= j < i ==> a[j] == b[j],
        a[i] < b[i],
    ensures
        lex_lt(a, b),
    decreases i,
{
    if i > 0 {
        assert(a[0] == b[0]);
        assert(a.drop_first()[i - 1] == a[i]);
        assert(b.drop_first()[i - 1] == b[i]);
        assert forall|j: int| 0 <= j < i - 1 implies a.drop_first()[j] == b.drop_first()[j] by {
            assert(a.drop_first()[j] == a[j + 1]);
            assert(b.drop_first()[j] == b[j + 1]);
        }
        lemma_lex_lt_from_index(a.drop_first(), b.drop_first(), i - 1);
    }
}

/// Byte-wise strict comparison of two digests.
fn lex_less(first: &MerkleTreeHash, second: &MerkleTreeHash) -> (r: bool)
    ensures
        r == lex_lt(first@, second@),
{
    let mut k: usize = 0;
    while k < 32
        invariant
            k <= 32,
            forall|j: int| 0 <= j < k ==> first@[j] == second@[j],
        decreases 32 - k,
    {
        if first[k] < second[k] {
            proof {
                lemma_lex_lt_from_index(first@, second@, k as int);
            }
            return true;
        }
        if first[k] > second[k] {
            proof {
                lemma_lex_lt_from_index(second@, first@, k as int);
                lemma_lex_lt_asymmetric(first@, second@);
            }
            return false;
        }
        k += 1;
    }
    proof {
        assert(first@ =~= second@);
        lemma_lex_lt_irreflexive(first@);
    }
    false
}

/// Arranges a pair of digests into byte-lexicographic ascending order.
pub fn sort_hash_pair(first: &MerkleTreeHash, second: &MerkleTreeHash) -> (r: (
    MerkleTreeHash,
    MerkleTreeHash,
))
    ensures
        lex_lt(first@, second@) ==> r == (*first, *second),
        !lex_lt(first@, second@) ==> r == (*second, *first),
{
    if lex_less(first, second) {
        (*first, *second)
    } else {
        (*second, *first)
    }
}

/// Order-independent combination of two digests: hash the encoding of
/// the pair taken in byte-lexicographic ascending order.
pub open spec fn combine(a: Seq<u8>, b: Seq<u8>) -> Seq<u8> {
    if lex_lt(a, b) {
        keccak256_of(a + b)
    } else {
        keccak256_of(b + a)
    }
}

/// Order-independence of pair hashing: combining two digests gives the
/// same result whichever order they are supplied in.
pub proof fn lemma_combine_commutes(a: Seq<u8>, b: Seq<u8>)
    ensures
        combine(a, b) == combine(b, a),
{
    lemma_lex_lt_asymmetric(a, b);
    lemma_lex_lt_connected(a, b);
}

/// Combines two digests into the digest of their parent node.
pub fn combine_hashes(first: &MerkleTreeHash, second: &MerkleTreeHash) -> (r: MerkleTreeHash)
    ensures
        r@ == combine(first@, second@),
{
    let (lo, hi) = sort_hash_pair(first, second);
    let encoded = encode_pair(&lo, &hi);
    keccak256(encoded.as_slice())
}

} // verus!
