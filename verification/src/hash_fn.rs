use vstd::prelude::*;
use crate::hash::MerkleTreeHash;

verus! {

/// The digest the hash primitive assigns to a byte sequence. The
/// primitive (Keccak-256) is deterministic, so its output is named here
/// rather than written out.
pub uninterp spec fn keccak256_of(data: Seq<u8>) -> Seq<u8>;

/// Relies on near_sdk::env::keccak256_array: it hashes exactly the given
/// bytes with Keccak-256 into a 32-byte digest, a deterministic function
/// of the input alone (off-chain it computes sha3::Keccak256 directly),
/// and it does not panic.
#[verifier::external_body]
pub(crate) fn keccak256(data: &[u8]) -> (r: MerkleTreeHash)
    ensures
        r@ == keccak256_of(data@),
{
    near_sdk::env::keccak256_array(data)
}

/// Relies on near_sdk::borsh::to_vec: a pair of 32-byte arrays is
/// serialized as the bytes of the first followed by the bytes of the
/// second (no length prefix for fixed-size arrays), and serializing
/// into a fresh Vec cannot fail.
#[verifier::external_body]
pub(crate) fn encode_pair(first: &MerkleTreeHash, second: &MerkleTreeHash) -> (r: Vec<u8>)
    ensures
        r@ == first@ + second@,
{
    near_sdk::borsh::to_vec(&(*first, *second)).unwrap()
}

} // verus!
