use vstd::prelude::*;

verus! {

/// A digest: the fixed-size output of the hash primitive. Compared by
/// exact byte equality; ordered byte-lexicographically.
pub type MerkleTreeHash = [u8; 32];

/// The sequence-of-bytes views of a sequence of digests.
pub open spec fn digests_view(hashes: Seq<MerkleTreeHash>) -> Seq<Seq<u8>> {
    hashes.map_values(|h: MerkleTreeHash| h@)
}

/// Byte-wise equality of two digests.
pub fn hashes_equal(first: &MerkleTreeHash, second: &MerkleTreeHash) -> (r: bool)
    ensures
        r == (first@ == second@),
{
    let mut k: usize = 0;
    while k < 32
        invariant
            k <= 32,
            forall|j: int| 0 <= j < k ==> first@[j] == second@[j],
        decreases 32 - k,
    {
        if first[k] != second[k] {
            return false;
        }
        k += 1;
    }
    proof {
        assert(first@ =~= second@);
    }
    true
}

} // verus!
