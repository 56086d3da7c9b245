//! The parent-hash window helper, and the fork-choice linearization.

use beacon_core::fork_choice::{Event, ForkChoiceTest};
use beacon_core::helpers::get_signed_parent_hashes;
use beacon_core::types::{Attestation, AttestationData, Checkpoint};

fn get_range_of_hashes(from: usize, to: usize) -> Vec<Vec<u8>> {
    (from..to).map(|i| get_hash(&[i as u8])).collect()
}

fn get_hash(value: &[u8]) -> Vec<u8> {
    value.to_vec()
}

#[test]
fn test_get_signed_hashes_no_oblique() {
    let cycle_length: u8 = 8;
    let block_slot: u64 = 19;
    let attestation_slot: u64 = 15;
    let current_hashes = get_range_of_hashes(3, 19);
    let oblique_hashes = vec![];
    let result = get_signed_parent_hashes(
        cycle_length,
        block_slot,
        attestation_slot,
        current_hashes,
        oblique_hashes,
    );
    assert!(result.is_ok());
    let result = result.unwrap();
    assert_eq!(result.len(), cycle_length as usize);
    let expected_result = get_range_of_hashes(7, 15);
    assert_eq!(result, expected_result);
}

#[test]
fn signed_hashes_with_oblique_tail() {
    let current_hashes = get_range_of_hashes(0, 16);
    let oblique_hashes = vec![get_hash(&[0xAA]), get_hash(&[0xBB])];
    let result =
        get_signed_parent_hashes(8, 19, 15, current_hashes, oblique_hashes).unwrap();
    assert_eq!(result.len(), 8);
    assert_eq!(result[..6], get_range_of_hashes(4, 10));
    assert_eq!(result[6], get_hash(&[0xAA]));
    assert_eq!(result[7], get_hash(&[0xBB]));
}

#[test]
fn signed_hashes_reject_bad_windows() {
    // Wrong recent-hash length.
    assert!(get_signed_parent_hashes(8, 19, 15, get_range_of_hashes(0, 15), vec![]).is_err());
    // The attestation is not strictly older than the block.
    assert!(get_signed_parent_hashes(8, 19, 19, get_range_of_hashes(0, 16), vec![]).is_err());
    // Too many oblique hashes.
    assert!(
        get_signed_parent_hashes(8, 19, 15, get_range_of_hashes(0, 16), get_range_of_hashes(0, 9))
            .is_err()
    );
    // The attestation is more than one cycle old.
    assert!(get_signed_parent_hashes(8, 19, 5, get_range_of_hashes(0, 16), vec![]).is_err());
}

fn attestation_at(slot: u64) -> Attestation {
    Attestation {
        data: AttestationData {
            slot,
            beacon_block_root: vec![0u8; 32],
            source: Checkpoint { epoch: 0, root: vec![0u8; 32] },
            target: Checkpoint { epoch: 0, root: vec![0u8; 32] },
        },
        aggregation_bits: vec![true],
        signature_ok: true,
    }
}

#[test]
fn linearize_interleaves_attestations_and_heads() {
    let attestations = vec![(2u64, attestation_at(2)), (4u64, attestation_at(4))];
    let heads: Vec<(u64, Vec<u8>)> = vec![(2, vec![0x02; 32]), (3, vec![0x03; 32])];
    let run = ForkChoiceTest::linearize_events(Vec::new(), attestations, heads);
    assert_eq!(run.len(), 4);
    let slots: Vec<u64> = run.iter().map(|(s, _)| *s).collect();
    assert_eq!(slots, vec![2, 2, 3, 4]);
    // At an equal slot the attestation comes before the head check.
    assert!(matches!(run[0].1, Event::ProcessAttestation(_)));
    assert!(matches!(run[1].1, Event::FindHead(_)));
}

#[test]
fn linearize_events_merges_by_slot() {
    let heads: Vec<(u64, Vec<u8>)> = vec![(1, vec![0x01; 32]), (3, vec![0x03; 32])];
    let run = ForkChoiceTest::linearize_events(Vec::new(), Vec::new(), heads);
    assert_eq!(run.len(), 2);
    assert_eq!(run[0].0, 1);
    assert_eq!(run[1].0, 3);
    assert!(matches!(run[0].1, Event::FindHead(_)));
    match &run[1].1 {
        Event::FindHead(h) => assert_eq!(h[0], 0x03),
        _ => panic!("expected a head check"),
    }
}
