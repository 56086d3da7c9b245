//! Scenario tests of the transition engine: a valid block, a bad chain link,
//! a staged deposit, a double vote, the justification boundary, and the
//! once-per-boundary epoch accounting.

use beacon_core::block_processing::{
    process_attester_slashings, process_deposits, process_randao,
};
use beacon_core::builder::{build_minimal_state, build_minimal_state_with_validators,
    increase_state_epoch, insert_eth1_data, sign_block, NUM_VALIDATORS, STATE_EPOCH};
use beacon_core::config::ChainSpec;
use beacon_core::errors::{BlockProcessingError, StateTransitionError};
use beacon_core::state::BeaconState;
use beacon_core::transition::{per_slot_processing, state_transition};
use beacon_core::types::{
    Attestation, AttestationData, AttesterSlashing, BeaconBlock, BeaconBlockBody, Checkpoint,
    compute_header_root, Deposit, DepositData, Eth1Data, IndexedAttestation, PendingAttestation,
    VoluntaryExit,
};
use beacon_core::validator::FAR_FUTURE_EPOCH;

fn empty_body() -> BeaconBlockBody {
    BeaconBlockBody {
        randao_reveal: vec![5u8; 96],
        randao_reveal_signature_ok: true,
        eth1_data: Eth1Data {
            deposit_root: vec![0u8; 32],
            deposit_count: 0,
            block_hash: vec![0u8; 32],
        },
        proposer_slashings: Vec::new(),
        attester_slashings: Vec::new(),
        attestations: Vec::new(),
        deposits: Vec::new(),
        voluntary_exits: Vec::new(),
        transfers: Vec::new(),
    }
}

fn block_on(state: &BeaconState, slot: u64) -> BeaconBlock {
    BeaconBlock {
        slot,
        parent_root: compute_header_root(&state.latest_block_header),
        state_root: vec![0u8; 32],
        body_root: vec![0u8; 32],
        body: empty_body(),
        proposer_signature_ok: true,
    }
}

#[test]
fn valid_block_advances_to_its_slot() {
    let spec = ChainSpec::minimal();
    let (mut state, keypairs) = build_minimal_state(&spec);
    assert_eq!(state.slot, (STATE_EPOCH + 1) * spec.slots_per_epoch - 1);
    assert_eq!(keypairs.len(), NUM_VALIDATORS);

    let target_slot = state.slot + 1;
    let mut block = block_on(&state, target_slot);
    let signer = sign_block(&mut block, &state, &keypairs, &spec);
    assert!(signer.is_some());

    let result = state_transition(&mut state, &block, &spec);
    assert!(result.is_ok());
    assert_eq!(state.slot, target_slot);
}

#[test]
fn bad_parent_root_rejects_block_and_preserves_state() {
    let spec = ChainSpec::minimal();
    let (mut state, _) = build_minimal_state(&spec);
    let slot_before = state.slot;
    let votes_before = state.eth1_data_votes.len();

    let mut block = block_on(&state, state.slot);
    block.parent_root = vec![0xABu8; 32];

    let result = state_transition(&mut state, &block, &spec);
    assert_eq!(
        result,
        Err(StateTransitionError::BlockProcessing(
            BlockProcessingError::HeaderParentRootMismatch
        ))
    );
    assert_eq!(state.slot, slot_before);
    assert_eq!(state.eth1_data_votes.len(), votes_before);
    assert_eq!(state.validators.len(), NUM_VALIDATORS);
}

#[test]
fn block_behind_state_is_rejected() {
    let spec = ChainSpec::minimal();
    let (mut state, _) = build_minimal_state(&spec);
    let block = block_on(&state, state.slot - 1);
    let result = state_transition(&mut state, &block, &spec);
    assert!(matches!(
        result,
        Err(StateTransitionError::SlotProcessing(_))
    ));
}

#[test]
fn deposit_with_valid_proof_creates_one_validator() {
    let spec = ChainSpec::minimal();
    let (mut state, _) = build_minimal_state(&spec);
    let count_before = state.validators.len();

    let mut pubkey = vec![0xEEu8; 48];
    pubkey[0] = 0xC0;
    let mut deposit = Deposit {
        proof: Vec::new(),
        data: DepositData {
            pubkey,
            withdrawal_credentials: vec![3u8; 32],
            amount: 32_000_000_000,
            signature_ok: true,
        },
    };
    insert_eth1_data(&mut state, &mut deposit);

    let deposits = vec![deposit];
    process_deposits(&mut state, &deposits, &spec).unwrap();

    assert_eq!(state.validators.len(), count_before + 1);
    let created = state.validators.get(count_before).unwrap();
    assert_eq!(created.effective_balance, 32_000_000_000);
    assert_eq!(created.activation_eligibility_epoch, FAR_FUTURE_EPOCH);
    assert_eq!(created.activation_epoch, FAR_FUTURE_EPOCH);
    assert_eq!(state.balances[count_before], 32_000_000_000);
    assert_eq!(state.eth1_deposit_index, 1);
}

#[test]
fn deposit_with_tampered_proof_is_rejected() {
    let spec = ChainSpec::minimal();
    let (mut state, _) = build_minimal_state(&spec);
    let mut deposit = Deposit {
        proof: Vec::new(),
        data: DepositData {
            pubkey: vec![0xC1u8; 48],
            withdrawal_credentials: vec![3u8; 32],
            amount: 32_000_000_000,
            signature_ok: true,
        },
    };
    insert_eth1_data(&mut state, &mut deposit);
    deposit.proof[0][0] ^= 1;
    let deposits = vec![deposit];
    assert_eq!(
        process_deposits(&mut state, &deposits, &spec),
        Err(BlockProcessingError::DepositBadProof)
    );
}

fn vote(slot: u64, target_epoch: u64, root_byte: u8) -> AttestationData {
    AttestationData {
        slot,
        beacon_block_root: vec![root_byte; 32],
        source: Checkpoint { epoch: 0, root: vec![0u8; 32] },
        target: Checkpoint { epoch: target_epoch, root: vec![root_byte; 32] },
    }
}

#[test]
fn double_vote_slashes_the_offender() {
    let spec = ChainSpec::minimal();
    let (mut state, _) = build_minimal_state(&spec);
    let eff_before = state.validators.get(0).unwrap().effective_balance;
    let bal_before = state.balances[0];

    let slashing = AttesterSlashing {
        attestation_1: IndexedAttestation {
            attesting_indices: vec![0],
            data: vote(10, 2, 0x11),
            signature_ok: true,
        },
        attestation_2: IndexedAttestation {
            attesting_indices: vec![0],
            data: vote(10, 2, 0x22),
            signature_ok: true,
        },
    };
    let slashings = vec![slashing];
    process_attester_slashings(&mut state, &slashings, &spec).unwrap();

    let v = state.validators.get(0).unwrap();
    assert!(v.slashed);
    let penalty = eff_before / spec.min_slashing_penalty_quotient;
    assert_eq!(v.effective_balance, eff_before - penalty);
    assert!(state.balances[0] < bal_before);
    assert_ne!(v.exit_epoch, FAR_FUTURE_EPOCH);
    let cur_epoch = state.slot / spec.slots_per_epoch;
    assert_eq!(v.exit_epoch, cur_epoch + 1 + spec.activation_exit_delay);
    assert!(v.withdrawable_epoch >= v.exit_epoch + spec.min_validator_withdrawability_delay);
}

#[test]
fn unslashable_pair_is_rejected() {
    let spec = ChainSpec::minimal();
    let (mut state, _) = build_minimal_state(&spec);
    let slashing = AttesterSlashing {
        attestation_1: IndexedAttestation {
            attesting_indices: vec![0],
            data: vote(10, 2, 0x11),
            signature_ok: true,
        },
        attestation_2: IndexedAttestation {
            attesting_indices: vec![0],
            data: vote(10, 2, 0x11),
            signature_ok: true,
        },
    };
    let slashings = vec![slashing];
    assert_eq!(
        process_attester_slashings(&mut state, &slashings, &spec),
        Err(BlockProcessingError::AttesterSlashingNotConflicting)
    );
}

fn pending_for_all_of(n: usize, attesters: usize, target_epoch: u64) -> PendingAttestation {
    let mut bits = vec![false; n];
    for b in bits.iter_mut().take(attesters) {
        *b = true;
    }
    PendingAttestation {
        data: AttestationData {
            slot: target_epoch * 8,
            beacon_block_root: vec![0u8; 32],
            source: Checkpoint { epoch: 0, root: vec![0u8; 32] },
            target: Checkpoint { epoch: target_epoch, root: vec![0u8; 32] },
        },
        aggregation_bits: bits,
        inclusion_delay: 1,
        proposer_index: 0,
    }
}

#[test]
fn justification_advances_strictly_above_two_thirds() {
    let spec = ChainSpec::minimal();
    // Three validators: two attesting is exactly two thirds, three is above.
    let (mut state, _) = build_minimal_state_with_validators(3, &spec);
    let prev_epoch = state.slot / spec.slots_per_epoch - 1;

    // Exactly two thirds: no advance.
    state
        .previous_epoch_attestations
        .push(pending_for_all_of(3, 2, prev_epoch));
    let justified_before = state.current_justified_checkpoint.epoch;
    per_slot_processing(&mut state, &spec).unwrap();
    assert_eq!(state.current_justified_checkpoint.epoch, justified_before);

    // Strictly above two thirds: the prior epoch's checkpoint is justified.
    let (mut state2, _) = build_minimal_state_with_validators(3, &spec);
    let prev_epoch2 = state2.slot / spec.slots_per_epoch - 1;
    state2
        .previous_epoch_attestations
        .push(pending_for_all_of(3, 3, prev_epoch2));
    per_slot_processing(&mut state2, &spec).unwrap();
    assert_eq!(state2.current_justified_checkpoint.epoch, prev_epoch2);
}

#[test]
fn epoch_accounting_runs_exactly_at_the_boundary() {
    let spec = ChainSpec::minimal();
    let (mut state, _) = build_minimal_state(&spec);
    // The built state sits on the last slot of its epoch; the next advance
    // crosses the boundary and rotates the pending attestations.
    let prev_epoch = state.slot / spec.slots_per_epoch - 1;
    state
        .current_epoch_attestations
        .push(pending_for_all_of(NUM_VALIDATORS, 1, prev_epoch + 1));
    per_slot_processing(&mut state, &spec).unwrap();
    assert_eq!(state.previous_epoch_attestations.len(), 1);
    assert_eq!(state.current_epoch_attestations.len(), 0);

    // The next advance is inside the epoch: no accounting, no rotation.
    per_slot_processing(&mut state, &spec).unwrap();
    assert_eq!(state.previous_epoch_attestations.len(), 1);
    assert_eq!(state.current_epoch_attestations.len(), 0);
}

#[test]
fn randao_rejects_an_unverified_reveal() {
    let spec = ChainSpec::minimal();
    let (mut state, _) = build_minimal_state(&spec);
    let mut block = block_on(&state, state.slot);
    block.body.randao_reveal_signature_ok = false;
    assert_eq!(
        process_randao(&mut state, &block, &spec),
        Err(BlockProcessingError::RandaoSignatureInvalid)
    );
}

#[test]
fn randao_folds_the_reveal_into_the_mix() {
    let spec = ChainSpec::minimal();
    let (mut state, _) = build_minimal_state(&spec);
    let epoch = state.slot / spec.slots_per_epoch;
    let idx = (epoch % spec.epochs_per_historical_vector) as usize;
    let before = state.randao_mixes[idx].clone();
    let block = block_on(&state, state.slot);
    process_randao(&mut state, &block, &spec).unwrap();
    assert_ne!(state.randao_mixes[idx], before);
    assert_eq!(state.randao_mixes[idx].len(), 32);
}

#[test]
fn exit_rules_are_reported_by_name() {
    let spec = ChainSpec::minimal();
    let (mut state, _) = build_minimal_state(&spec);
    let unknown = vec![VoluntaryExit { epoch: 0, validator_index: 99, signature_ok: true }];
    assert_eq!(
        beacon_core::block_processing::process_exits(&mut state, &unknown, &spec),
        Err(BlockProcessingError::ExitUnknownValidator)
    );
    let young = vec![VoluntaryExit { epoch: 0, validator_index: 0, signature_ok: true }];
    assert_eq!(
        beacon_core::block_processing::process_exits(&mut state, &young, &spec),
        Err(BlockProcessingError::ExitTooYoung)
    );
}

#[test]
fn mature_exit_joins_the_queue() {
    let spec = ChainSpec::minimal();
    let (mut state, _) = build_minimal_state(&spec);
    let new_epoch = STATE_EPOCH + spec.persistent_committee_period;
    increase_state_epoch(&mut state, new_epoch, &spec);
    assert_eq!(state.slot, (new_epoch + 1) * spec.slots_per_epoch - 1);
    let exits = vec![VoluntaryExit { epoch: new_epoch, validator_index: 0, signature_ok: true }];
    beacon_core::block_processing::process_exits(&mut state, &exits, &spec).unwrap();
    let v = state.validators.get(0).unwrap();
    assert_eq!(v.exit_epoch, new_epoch + 1 + spec.activation_exit_delay);
    assert_eq!(
        v.withdrawable_epoch,
        v.exit_epoch + spec.min_validator_withdrawability_delay
    );
}
