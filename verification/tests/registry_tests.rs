//! The validator registry tree: replace and read-back, the list round trip,
//! and the iteration benchmark scenario.

use std::time::Instant;
use beacon_core::registry::ValidatorTree;
use beacon_core::validator::{Validator, FAR_FUTURE_EPOCH};

fn make_validator(index: u64, balance: u64) -> Validator {
    let mut pubkey = index.to_le_bytes().to_vec();
    pubkey.resize(48, 0);
    Validator {
        pubkey,
        withdrawal_credentials: vec![0u8; 32],
        effective_balance: balance,
        slashed: false,
        activation_eligibility_epoch: 0,
        activation_epoch: 0,
        exit_epoch: FAR_FUTURE_EPOCH,
        withdrawable_epoch: FAR_FUTURE_EPOCH,
    }
}

#[test]
fn replace_then_get_reads_back_and_disturbs_nothing() {
    let vals: Vec<Validator> = (0..4).map(|i| make_validator(i, 1_000_000_000)).collect();
    let mut tree = ValidatorTree::from_validators(vals);
    let before_root = tree.tree_hash_root();

    let replacement = make_validator(99, 7_000_000_000);
    tree.replace(1, replacement).unwrap();

    let read = tree.get(1).unwrap();
    assert_eq!(read.pubkey[0], 99);
    assert_eq!(read.effective_balance, 7_000_000_000);
    for j in [0usize, 2, 3] {
        let v = tree.get(j).unwrap();
        assert_eq!(v.pubkey[0], j as u8);
        assert_eq!(v.effective_balance, 1_000_000_000);
    }
    // A single-leaf update re-hashes only the touched path: the root moves.
    assert_ne!(tree.tree_hash_root(), before_root);

    // A replace beyond the registry is reported, never written.
    assert!(tree.replace(4, make_validator(4, 1)).is_err());
    assert_eq!(tree.len(), 4);
}

#[test]
fn round_trip_up_to_capacity_sample() {
    for n in 0..9u64 {
        let vals: Vec<Validator> = (0..n).map(|i| make_validator(i, i * 10 + 1)).collect();
        let tree = ValidatorTree::from_validators(vals);
        assert_eq!(tree.len() as u64, n);
        let out = tree.iter();
        assert_eq!(out.len() as u64, n);
        for (i, v) in out.iter().enumerate() {
            assert_eq!(v.pubkey[0] as usize, i);
            assert_eq!(v.effective_balance, i as u64 * 10 + 1);
        }
    }
}

#[test]
fn push_appends_in_order() {
    let mut tree = ValidatorTree::default();
    assert_eq!(tree.len(), 0);
    tree.push(make_validator(0, 5)).unwrap();
    tree.push(make_validator(1, 6)).unwrap();
    assert_eq!(tree.len(), 2);
    assert_eq!(tree.get(0).unwrap().effective_balance, 5);
    assert_eq!(tree.get(1).unwrap().effective_balance, 6);
    assert!(tree.get(2).is_none());
}

#[test]
fn iter_bench() {
    let seed = 42u64;
    let validators: Vec<Validator> = (0..32_768u64)
        .map(|i| make_validator(i.wrapping_mul(seed).wrapping_add(16), 32_000_000_000))
        .collect();

    let t = Instant::now();
    let tree = ValidatorTree::from_validators(
        validators.iter().map(|v| make_validator_copy(v)).collect(),
    );
    println!("construction: {}us", t.elapsed().as_micros());

    let extracted: Vec<Validator> = tree.iter();
    assert_eq!(extracted.len(), validators.len());
    for (a, b) in extracted.iter().zip(validators.iter()) {
        assert_eq!(a.pubkey, b.pubkey);
        assert_eq!(a.effective_balance, b.effective_balance);
    }

    let t = Instant::now();
    let sum = tree.iter().iter().map(|v| v.effective_balance as u128).sum::<u128>();
    println!("{}", sum / tree.len() as u128);
    println!("iteration: {}us", t.elapsed().as_micros());

    let t = Instant::now();
    let sum = validators.iter().map(|v| v.effective_balance as u128).sum::<u128>();
    println!("{}", sum / tree.len() as u128);
    println!("vec iteration: {}us", t.elapsed().as_micros());
}

fn make_validator_copy(v: &Validator) -> Validator {
    Validator {
        pubkey: v.pubkey.clone(),
        withdrawal_credentials: v.withdrawal_credentials.clone(),
        effective_balance: v.effective_balance,
        slashed: v.slashed,
        activation_eligibility_epoch: v.activation_eligibility_epoch,
        activation_epoch: v.activation_epoch,
        exit_epoch: v.exit_epoch,
        withdrawable_epoch: v.withdrawable_epoch,
    }
}
