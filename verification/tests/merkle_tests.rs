//! The Merkle accumulator: proof round trips, tamper rejection, and the
//! canonical zero hashes against the real digest.

use beacon_core::hashing::zero_hash_exec;
use beacon_core::merkle::{int_log, verify_merkle_proof, MerkleTree};

fn leaf(byte: u8) -> Vec<u8> {
    vec![byte; 32]
}

#[test]
fn proof_round_trip_all_indices() {
    let leaves = vec![leaf(1), leaf(2), leaf(3)];
    let depth = 3usize;
    let tree = MerkleTree::create(&leaves, depth);
    let root = tree.hash();
    for index in 0..3usize {
        let (leaf_value, branch) = tree.generate_proof(index, depth);
        assert_eq!(branch.len(), depth);
        assert_eq!(leaf_value, leaves[index]);
        assert!(verify_merkle_proof(
            leaf_value,
            &branch,
            depth,
            index as u64,
            root.clone()
        ));
    }
}

#[test]
fn proof_rejects_any_flipped_bit() {
    let leaves = vec![leaf(7), leaf(9)];
    let depth = 2usize;
    let tree = MerkleTree::create(&leaves, depth);
    let root = tree.hash();
    let (leaf_value, branch) = tree.generate_proof(1, depth);

    // A flipped bit in the leaf is rejected.
    let mut bad_leaf = leaf_value.clone();
    bad_leaf[0] ^= 0x01;
    assert!(!verify_merkle_proof(bad_leaf, &branch, depth, 1, root.clone()));

    // A flipped bit anywhere in the branch is rejected.
    for level in 0..depth {
        let mut bad_branch = branch.clone();
        bad_branch[level][5] ^= 0x80;
        assert!(!verify_merkle_proof(
            leaf_value.clone(),
            &bad_branch,
            depth,
            1,
            root.clone()
        ));
    }

    // A flipped bit in the root is rejected.
    let mut bad_root = root.clone();
    bad_root[31] ^= 0x40;
    assert!(!verify_merkle_proof(leaf_value.clone(), &branch, depth, 1, bad_root));

    // A branch of the wrong length is rejected outright.
    let short = branch[..1].to_vec();
    assert!(!verify_merkle_proof(leaf_value, &short, depth, 1, root));
}

#[test]
fn empty_tree_is_the_zero_tree() {
    let no_leaves: Vec<Vec<u8>> = Vec::new();
    let tree = MerkleTree::create(&no_leaves, 5);
    assert_eq!(tree.hash(), zero_hash_exec(5));
}

#[test]
fn zero_hash_level_one_matches_the_digest() {
    // The digest of 64 zero bytes, from the SHA-256 test vectors.
    let expected =
        hex::decode("f5a5fd42d16a20302798ef6ed309979b43003d2320d9f0e8ea9831a92759fb4b").unwrap();
    assert_eq!(zero_hash_exec(1), expected);
    assert_eq!(zero_hash_exec(1).len(), 32);
}

#[test]
fn branches_and_leaf_queries() {
    let leaves = vec![leaf(1)];
    let tree = MerkleTree::create(&leaves, 1);
    assert!(!tree.is_leaf());
    let (left, right) = tree.left_and_right_branches().unwrap();
    assert!(left.is_leaf());
    assert!(!right.is_leaf());
    assert_eq!(left.hash(), leaf(1));
    let single = MerkleTree::create(&leaves, 0);
    assert!(single.is_leaf());
    assert!(single.left_and_right_branches().is_none());
}

#[test]
fn int_log_rounds_up() {
    assert_eq!(int_log(0), 0);
    assert_eq!(int_log(1), 0);
    assert_eq!(int_log(2), 1);
    assert_eq!(int_log(3), 2);
    assert_eq!(int_log(8), 3);
    assert_eq!(int_log(9), 4);
    assert_eq!(int_log(1 << 20), 20);
}
