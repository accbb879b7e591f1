use merkle_tree::leaf_count;
use merkle_tree::root::MerkleTreeRoot;
use merkle_tree::MerkleTree;

fn borsh_i32_items(count: i32) -> Vec<Vec<u8>> {
    let mut items: Vec<Vec<u8>> = Vec::new();
    for i in 0..count {
        items.push(near_sdk::borsh::to_vec(&i).unwrap());
    }
    items
}

#[test]
fn correct_proofs() {
    let items = borsh_i32_items(8);

    let merkle_tree = MerkleTree::build(&items);

    assert_eq!(merkle_tree.proofs.len(), 8);

    for proof in merkle_tree.proofs {
        assert_eq!(proof.len(), 3);
    }
}

#[test]
fn verify_correct_data() {
    let items = borsh_i32_items(4);

    let merkle_tree = MerkleTree::build(&items);

    for i in 0..items.len() {
        assert!(merkle_tree.root.verify(&items[i], &merkle_tree.proofs[i]));
    }
}

#[test]
fn verify_incorrect_data() {
    let items = borsh_i32_items(4);

    let merkle_tree = MerkleTree::build(&items);

    assert!(!merkle_tree.root.verify(&items[0], &merkle_tree.proofs[1]));
}

#[test]
fn end_to_end_four_items() {
    let items: Vec<Vec<u8>> = vec![b"0".to_vec(), b"1".to_vec(), b"2".to_vec(), b"3".to_vec()];

    assert_eq!(leaf_count(items.len()), 4);
    assert_eq!(2 * leaf_count(items.len()) - 1, 7);

    let merkle_tree = MerkleTree::build(&items);

    assert_eq!(merkle_tree.proofs.len(), 4);
    for proof in &merkle_tree.proofs {
        assert_eq!(proof.len(), 2);
    }
    assert!(merkle_tree.root.verify(&items[0], &merkle_tree.proofs[0]));
    assert!(!merkle_tree.root.verify(&items[0], &merkle_tree.proofs[1]));
}

#[test]
fn leaf_and_node_counts() {
    assert_eq!(leaf_count(0), 1);
    assert_eq!(leaf_count(1), 1);
    assert_eq!(leaf_count(4), 4);
    assert_eq!(leaf_count(5), 8);
    assert_eq!(leaf_count(8), 8);
    assert_eq!(2 * leaf_count(1) - 1, 1);
    assert_eq!(2 * leaf_count(4) - 1, 7);
    assert_eq!(2 * leaf_count(5) - 1, 15);
    assert_eq!(2 * leaf_count(8) - 1, 15);
}

#[test]
fn proof_length_is_ceil_log2() {
    for (n, expected) in [(1usize, 0usize), (2, 1), (3, 2), (5, 3), (8, 3)] {
        let mut items: Vec<Vec<u8>> = Vec::new();
        for i in 0..n {
            items.push(vec![i as u8]);
        }
        let merkle_tree = MerkleTree::build(&items);
        for proof in &merkle_tree.proofs {
            assert_eq!(proof.len(), expected);
        }
    }
}

#[test]
fn single_item_root_is_leaf_digest() {
    let items: Vec<Vec<u8>> = vec![b"abc".to_vec()];
    let merkle_tree = MerkleTree::build(&items);

    assert_eq!(merkle_tree.root.hash, near_sdk::env::keccak256_array(b"abc"));
    assert_eq!(merkle_tree.proofs[0].len(), 0);
    assert!(merkle_tree.root.verify(&items[0], &merkle_tree.proofs[0]));
}

#[test]
fn empty_input_builds_padding_tree() {
    let items: Vec<Vec<u8>> = Vec::new();
    let merkle_tree = MerkleTree::build(&items);

    assert_eq!(merkle_tree.proofs.len(), 0);
    assert_eq!(merkle_tree.root.hash, near_sdk::env::keccak256_array(b""));
}

#[test]
fn two_item_root_matches_sorted_pair_hash() {
    let items: Vec<Vec<u8>> = vec![b"a".to_vec(), b"b".to_vec()];
    let merkle_tree = MerkleTree::build(&items);

    let leaf0 = near_sdk::env::keccak256_array(b"a");
    let leaf1 = near_sdk::env::keccak256_array(b"b");
    let (lo, hi) = if leaf0 < leaf1 { (leaf0, leaf1) } else { (leaf1, leaf0) };
    let encoded = near_sdk::borsh::to_vec(&(lo, hi)).unwrap();
    let expected = near_sdk::env::keccak256_array(&encoded);

    assert_eq!(merkle_tree.root.hash, expected);
    assert_eq!(merkle_tree.proofs[0].as_slice(), &[leaf1]);
    assert_eq!(merkle_tree.proofs[1].as_slice(), &[leaf0]);
}

#[test]
fn sort_hash_pair_is_order_independent() {
    let a = near_sdk::env::keccak256_array(b"left");
    let b = near_sdk::env::keccak256_array(b"right");

    assert_eq!(
        merkle_tree::hash_pair::sort_hash_pair(&a, &b),
        merkle_tree::hash_pair::sort_hash_pair(&b, &a)
    );
    let (lo, hi) = merkle_tree::hash_pair::sort_hash_pair(&a, &b);
    assert!(lo <= hi);
    assert_eq!(merkle_tree::hash_pair::sort_hash_pair(&a, &a), (a, a));
}

#[test]
fn combine_is_order_independent_in_proofs() {
    // The proof for each of two siblings holds only the other's digest,
    // never which side it stood on; verification succeeds for both.
    let items: Vec<Vec<u8>> = vec![b"x".to_vec(), b"y".to_vec()];
    let merkle_tree = MerkleTree::build(&items);

    assert!(merkle_tree.root.verify(&items[0], &merkle_tree.proofs[0]));
    assert!(merkle_tree.root.verify(&items[1], &merkle_tree.proofs[1]));
}

#[test]
fn tampered_item_fails_verification() {
    let items = borsh_i32_items(5);
    let merkle_tree = MerkleTree::build(&items);

    for i in 0..items.len() {
        for byte in 0..items[i].len() {
            for bit in 0..8 {
                let mut tampered = items[i].clone();
                tampered[byte] ^= 1u8 << bit;
                assert!(!merkle_tree.root.verify(&tampered, &merkle_tree.proofs[i]));
            }
        }
    }
}

#[test]
fn tampered_proof_fails_verification() {
    let items = borsh_i32_items(5);
    let merkle_tree = MerkleTree::build(&items);

    for entry in 0..merkle_tree.proofs[2].len() {
        for byte in 0..32 {
            let mut tampered = merkle_tree.proofs[2].clone();
            tampered[entry][byte] ^= 0x01;
            assert!(!merkle_tree.root.verify(&items[2], &tampered));
        }
    }
}

#[test]
fn wrong_root_fails_verification() {
    let items = borsh_i32_items(4);
    let merkle_tree = MerkleTree::build(&items);

    let mut wrong = merkle_tree.root.hash;
    wrong[31] ^= 0xFF;
    let wrong_root = MerkleTreeRoot::new(wrong);
    assert!(!wrong_root.verify(&items[0], &merkle_tree.proofs[0]));
}

#[test]
fn malformed_proof_length_fails_verification() {
    let items = borsh_i32_items(4);
    let merkle_tree = MerkleTree::build(&items);

    let mut truncated = merkle_tree.proofs[0].clone();
    truncated.pop();
    assert!(!merkle_tree.root.verify(&items[0], &truncated));

    let mut extended = merkle_tree.proofs[0].clone();
    extended.push(near_sdk::env::keccak256_array(b"extra"));
    assert!(!merkle_tree.root.verify(&items[0], &extended));
}
