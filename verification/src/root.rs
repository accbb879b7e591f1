use vstd::prelude::*;
use crate::data::MerkleTreeData;
use crate::hash::{digests_view, hashes_equal, MerkleTreeHash};
use crate::hash_fn::{keccak256, keccak256_of};
use crate::hash_pair::combine_hashes;
use crate::model::fold_digests;

verus! {

/// An inclusion proof: the sibling digests met walking from a leaf up
/// to (excluding) the root, leaf-level first.
pub type MerkleTreeProof = Vec<MerkleTreeHash>;

/// The tree's committed digest, together with the verification
/// algorithm. A verifier holds only this, a proof, and the item.
#[derive(Clone, Copy, PartialEq, Eq, PartialOrd, Ord)]
pub struct MerkleTreeRoot {
    pub hash: MerkleTreeHash,
}

impl MerkleTreeRoot {
    pub fn new(hash: MerkleTreeHash) -> (root: Self)
        ensures
            root.hash == hash,
    {
        MerkleTreeRoot { hash }
    }

    /// Recomputes the leaf-to-root hash chain from the item's digest
    /// and the proof's sibling digests, and compares the outcome with
    /// the committed root digest. A mismatch is a normal `false`
    /// outcome, never an error.
    pub fn verify(&self, data: &MerkleTreeData, proof: &MerkleTreeProof) -> (r: bool)
        ensures
            r == (fold_digests(keccak256_of(data@), digests_view(proof@)) == self.hash@),
    {
        let ghost pv = digests_view(proof@);
        let mut hash = keccak256(data.as_slice());
        let mut i: usize = 0;
        proof {
            assert(pv.skip(0) =~= pv);
        }
        while i < proof.len()
            invariant
                i <= proof@.len(),
                pv == digests_view(proof@),
                pv.len() == proof@.len(),
                fold_digests(keccak256_of(data@), pv) == fold_digests(hash@, pv.skip(i as int)),
            decreases proof@.len() - i,
        {
            proof {
                assert(pv.skip(i as int)[0] == proof@[i as int]@);
                assert(pv.skip(i as int).drop_first() =~= pv.skip(i as int + 1));
            }
            hash = combine_hashes(&hash, &proof[i]);
            i += 1;
        }
        proof {
            assert(pv.skip(i as int) =~= Seq::<Seq<u8>>::empty());
        }
        hashes_equal(&hash, &self.hash)
    }
}

} // verus!
