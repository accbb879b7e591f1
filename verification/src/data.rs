use vstd::prelude::*;

verus! {

/// One record committed to by the tree: an arbitrary-length byte
/// sequence. A padding item is an empty byte sequence.
pub type MerkleTreeData = Vec<u8>;

/// The sequence-of-bytes views of a sequence of items.
pub open spec fn items_view(items: Seq<MerkleTreeData>) -> Seq<Seq<u8>> {
    items.map_values(|d: MerkleTreeData| d@)
}

} // verus!
