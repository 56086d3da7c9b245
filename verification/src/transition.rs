//! The state transition driver: advance empty slots one at a time, run epoch
//! accounting at every boundary, then apply the candidate block through the
//! per-block pipeline. No partial application is permitted: on any failure
//! the caller's state is left exactly as it was.

use vstd::prelude::*;
use crate::hashing::{Hash256, zero32};
use crate::config::ChainSpec;
use crate::errors::{BlockProcessingError, SlotProcessingError, StateTransitionError};
use crate::state::{BeaconState, StateModel, epoch_of, lemma_wf_same_shape};
use crate::types::{BeaconBlock, HeaderView, header_root, compute_header_root};
use crate::block_processing::{
    attestations_fold, attester_slashings_fold, deposits_fold, exits_fold, header_check,
    process_attestations, process_attester_slashings, process_block_header, process_deposits,
    process_eth1_data, process_exits, process_proposer_slashings, process_randao,
    process_transfers, proposer_slashings_fold, set_hash, transfers_fold, count_votes,
};
use crate::epoch_processing::epoch_outcome;

verus! {

broadcast use crate::hashing::lemma_bytes_deep_view, crate::hashing::lemma_deep_view_len;

/// What a valid header does to the state.
pub open spec fn header_outcome(
    s: StateModel,
    block: BeaconBlock,
    verify_signature: bool,
    spec: ChainSpec,
) -> Result<StateModel, BlockProcessingError> {
    match header_check(
        s,
        block.slot,
        block.parent_root@,
        block.proposer_signature_ok,
        verify_signature,
        spec,
    ) {
        Some(e) => Err(e),
        None => Ok(
            StateModel {
                latest_block_header: HeaderView {
                    slot: block.slot,
                    parent_root: block.parent_root@,
                    state_root: zero32(),
                    body_root: block.body_root@,
                },
                ..s
            },
        ),
    }
}

/// What a verified randao reveal does to the state.
pub open spec fn randao_outcome(s: StateModel, block: BeaconBlock, spec: ChainSpec) -> Result<
    StateModel,
    BlockProcessingError,
> {
    if !block.body.randao_reveal_signature_ok {
        Err(BlockProcessingError::RandaoSignatureInvalid)
    } else {
        Ok(
            StateModel {
                randao_mixes: s.randao_mixes.update(
                    epoch_of(s.slot, spec) as int % (spec.epochs_per_historical_vector as int),
                    crate::hashing::xor_bytes_spec(
                        s.randao_mixes[epoch_of(s.slot, spec) as int % (
                        spec.epochs_per_historical_vector as int)],
                        crate::hashing::sha256_of(block.body.randao_reveal@),
                    ),
                ),
                ..s
            },
        )
    }
}

/// What recording the block's eth1 vote does to the state.
pub open spec fn eth1_outcome(s: StateModel, block: BeaconBlock, spec: ChainSpec) -> StateModel {
    StateModel {
        eth1_data_votes: s.eth1_data_votes.push(block.body.eth1_data@),
        eth1_data: if 2 * count_votes(
            s.eth1_data_votes.push(block.body.eth1_data@),
            block.body.eth1_data@,
        ) > spec.slots_per_eth1_voting_period {
            block.body.eth1_data@
        } else {
            s.eth1_data
        },
        ..s
    }
}

/// What one whole block does to the state: the nine processors in their fixed
/// order, the first failure rejecting the block.
pub open spec fn block_outcome(
    s: StateModel,
    block: BeaconBlock,
    verify_signatures: bool,
    spec: ChainSpec,
) -> Result<StateModel, BlockProcessingError> {
    match header_outcome(s, block, verify_signatures, spec) {
        Err(e) => Err(e),
        Ok(s1) => match randao_outcome(s1, block, spec) {
            Err(e) => Err(e),
            Ok(s2) => {
                let s3 = eth1_outcome(s2, block, spec);
                match proposer_slashings_fold(s3, block.body.proposer_slashings@, spec) {
                    Err(e) => Err(e),
                    Ok(s4) => match attester_slashings_fold(
                        s4,
                        block.body.attester_slashings@,
                        spec,
                    ) {
                        Err(e) => Err(e),
                        Ok(s5) => match attestations_fold(s5, block.body.attestations@, spec) {
                            Err(e) => Err(e),
                            Ok(s6) => match deposits_fold(s6, block.body.deposits@, spec) {
                                Err(e) => Err(e),
                                Ok(s7) => match exits_fold(
                                    s7,
                                    block.body.voluntary_exits@,
                                    spec,
                                ) {
                                    Err(e) => Err(e),
                                    Ok(s8) => transfers_fold(s8, block.body.transfers@, spec),
                                },
                            },
                        },
                    },
                }
            }
        },
    }
}

/// Run one candidate block through the fixed pipeline, mutating the state in
/// place; a caller that must keep the pre-block state works on a copy.
pub fn per_block_processing(
    state: &mut BeaconState,
    block: &BeaconBlock,
    spec: &ChainSpec,
    verify_signatures: bool,
) -> (res: Result<(), BlockProcessingError>)
    requires
        spec.wf(),
        old(state).wf(*spec),
    ensures
        final(state).wf(*spec),
        res matches Ok(()) ==> block_outcome(old(state)@, *block, verify_signatures, *spec)
            == Ok::<StateModel, BlockProcessingError>(final(state)@),
        res matches Err(e) ==> block_outcome(old(state)@, *block, verify_signatures, *spec)
            == Err::<StateModel, BlockProcessingError>(e),
        final(state).slot == old(state).slot,
{
    match process_block_header(state, block, spec, verify_signatures) {
        Ok(()) => {}
        Err(e) => {
            return Err(e);
        }
    }
    match process_randao(state, block, spec) {
        Ok(()) => {}
        Err(e) => {
            return Err(e);
        }
    }
    match process_eth1_data(state, block, spec) {
        Ok(()) => {}
        Err(e) => {
            proof {
                assert(false);
            }
            return Err(e);
        }
    }
    match process_proposer_slashings(state, &block.body.proposer_slashings, spec) {
        Ok(()) => {}
        Err(e) => {
            return Err(e);
        }
    }
    match process_attester_slashings(state, &block.body.attester_slashings, spec) {
        Ok(()) => {}
        Err(e) => {
            return Err(e);
        }
    }
    match process_attestations(state, &block.body.attestations, spec) {
        Ok(()) => {}
        Err(e) => {
            return Err(e);
        }
    }
    match process_deposits(state, &block.body.deposits, spec) {
        Ok(()) => {}
        Err(e) => {
            return Err(e);
        }
    }
    match process_exits(state, &block.body.voluntary_exits, spec) {
        Ok(()) => {}
        Err(e) => {
            return Err(e);
        }
    }
    match process_transfers(state, &block.body.transfers, spec) {
        Ok(()) => {}
        Err(e) => {
            return Err(e);
        }
    }
    Ok(())
}

/// What advancing the clock by one slot does: the departing header's root is
/// recorded, epoch accounting runs exactly when the slot closes an epoch, and
/// the slot steps forward.
pub open spec fn slot_outcome(s: StateModel, spec: ChainSpec) -> Result<
    StateModel,
    StateTransitionError,
> {
    if s.slot == u64::MAX {
        Err(StateTransitionError::SlotProcessing(SlotProcessingError::SlotOutOfRange))
    } else {
        let rooted = StateModel {
            block_roots: s.block_roots.update(
                (s.slot as int) % (spec.slots_per_historical_root as int),
                header_root(s.latest_block_header),
            ),
            ..s
        };
        if (s.slot as int + 1) % (spec.slots_per_epoch as int) == 0 {
            match epoch_outcome(rooted, spec) {
                Err(e) => Err(StateTransitionError::BlockProcessing(e)),
                Ok(m) => Ok(StateModel { slot: (s.slot + 1) as u64, ..m }),
            }
        } else {
            Ok(StateModel { slot: (s.slot + 1) as u64, ..rooted })
        }
    }
}

/// Advance the state by one slot, running epoch accounting at a boundary.
pub fn per_slot_processing(state: &mut BeaconState, spec: &ChainSpec) -> (res: Result<
    (),
    StateTransitionError,
>)
    requires
        spec.wf(),
        old(state).wf(*spec),
    ensures
        final(state).wf(*spec),
        res matches Ok(()) ==> slot_outcome(old(state)@, *spec) == Ok::<
            StateModel,
            StateTransitionError,
        >(final(state)@),
        res matches Err(e) ==> slot_outcome(old(state)@, *spec) == Err::<
            StateModel,
            StateTransitionError,
        >(e),
        res matches Ok(()) ==> final(state).slot == old(state).slot + 1,
{
    let ghost pre = self_model(state);
    if state.slot == u64::MAX {
        return Err(
            StateTransitionError::SlotProcessing(SlotProcessingError::SlotOutOfRange),
        );
    }
    let ghost pre_state = *state;
    let root = compute_header_root(&state.latest_block_header);
    let len = state.block_roots.len();
    proof {
        assert(len == spec.slots_per_historical_root);
    }
    let idx_u64 = state.slot % spec.slots_per_historical_root;
    proof {
        assert(idx_u64 < len as u64);
    }
    let idx = idx_u64 as usize;
    set_hash(&mut state.block_roots, idx, root);
    let ghost rooted = state@;
    proof {
        assert(rooted =~~= (StateModel {
            block_roots: pre.block_roots.update(
                (pre.slot as int) % (spec.slots_per_historical_root as int),
                header_root(pre.latest_block_header),
            ),
            ..pre
        }));
        lemma_wf_same_shape(pre_state, *state, *spec);
    }
    let at_boundary = (state.slot + 1) % spec.slots_per_epoch == 0;
    if at_boundary {
        match state.process_epoch(spec) {
            Ok(()) => {}
            Err(e) => {
                return Err(StateTransitionError::BlockProcessing(e));
            }
        }
    }
    let ghost pre_bump = *state;
    state.slot = state.slot + 1;
    proof {
        assert(state@ =~~= (StateModel { slot: (pre.slot + 1) as u64, ..pre_bump@ }));
        lemma_wf_same_shape(pre_bump, *state, *spec);
    }
    Ok(())
}

/// The state's mathematical image, named for ghost use.
pub open spec fn self_model(state: &BeaconState) -> StateModel {
    state@
}

/// What advancing the clock by `k` slots does.
pub open spec fn advance_outcome(s: StateModel, k: nat, spec: ChainSpec) -> Result<
    StateModel,
    StateTransitionError,
>
    decreases k,
{
    if k == 0 {
        Ok(s)
    } else {
        match slot_outcome(s, spec) {
            Err(e) => Err(e),
            Ok(m) => advance_outcome(m, (k - 1) as nat, spec),
        }
    }
}

/// What one whole transition does: the slot rule, the empty-slot advances
/// with their epoch boundaries, then the block pipeline.
pub open spec fn transition_outcome(
    s: StateModel,
    block: BeaconBlock,
    verify_signatures: bool,
    spec: ChainSpec,
) -> Result<StateModel, StateTransitionError> {
    if block.slot < s.slot {
        Err(StateTransitionError::SlotProcessing(SlotProcessingError::BlockSlotBehindState))
    } else {
        match advance_outcome(s, (block.slot - s.slot) as nat, spec) {
            Err(e) => Err(e),
            Ok(m) => match block_outcome(m, block, verify_signatures, spec) {
                Err(e) => Err(StateTransitionError::BlockProcessing(e)),
                Ok(f) => Ok(f),
            },
        }
    }
}

/// Advance the state to the block's slot and apply the block. All or
/// nothing: on any failure the state is left exactly as it was before the
/// call, and on success the state's slot equals the block's slot.
pub fn state_transition(state: &mut BeaconState, block: &BeaconBlock, spec: &ChainSpec) -> (res:
    Result<(), StateTransitionError>)
    requires
        spec.wf(),
        old(state).wf(*spec),
    ensures
        final(state).wf(*spec),
        res matches Ok(()) ==> transition_outcome(old(state)@, *block, true, *spec) == Ok::<
            StateModel,
            StateTransitionError,
        >(final(state)@),
        res matches Err(e) ==> transition_outcome(old(state)@, *block, true, *spec) == Err::<
            StateModel,
            StateTransitionError,
        >(e),
        res is Ok ==> final(state).slot == block.slot,
        res is Err ==> *final(state) == *old(state),
{
    if block.slot < state.slot {
        return Err(
            StateTransitionError::SlotProcessing(SlotProcessingError::BlockSlotBehindState),
        );
    }
    let mut candidate = state.duplicate();
    let ghost orig = state@;
    let ghost total_k = (block.slot - state.slot) as nat;
    while candidate.slot < block.slot
        invariant
            spec.wf(),
            candidate.wf(*spec),
            candidate.slot <= block.slot,
            *state == *old(state),
            old(state).wf(*spec),
            orig == old(state)@,
            block.slot >= old(state).slot,
            total_k == (block.slot - old(state).slot) as nat,
            advance_outcome(orig, total_k, *spec) == advance_outcome(
                self_model(&candidate),
                (block.slot - candidate.slot) as nat,
                *spec,
            ),
        decreases block.slot - candidate.slot,
    {
        let ghost it_pre = candidate@;
        let ghost k = (block.slot - candidate.slot) as nat;
        match per_slot_processing(&mut candidate, spec) {
            Ok(()) => {}
            Err(e) => {
                proof {
                    assert(advance_outcome(it_pre, k, *spec) == Err::<
                        StateModel,
                        StateTransitionError,
                    >(e));
                }
                return Err(e);
            }
        }
    }
    proof {
        assert(advance_outcome(self_model(&candidate), 0, *spec) == Ok::<
            StateModel,
            StateTransitionError,
        >(candidate@));
        assert(advance_outcome(orig, total_k, *spec) == Ok::<StateModel, StateTransitionError>(
            candidate@,
        ));
    }
    let ghost advanced = candidate@;
    match per_block_processing(&mut candidate, block, spec, true) {
        Ok(()) => {}
        Err(e) => {
            return Err(StateTransitionError::BlockProcessing(e));
        }
    }
    *state = candidate;
    Ok(())
}

/// Law: epoch accounting runs exactly once per boundary. When the advance out
/// of slot `s` closes an epoch and triggers accounting, the advance out of
/// the next slot does not, for any configuration with more than one slot per
/// epoch.
pub proof fn lemma_epoch_accounting_once(s: u64, spec: ChainSpec)
    requires
        spec.wf(),
        spec.slots_per_epoch >= 2,
        s < u64::MAX,
        (s as int + 1) % (spec.slots_per_epoch as int) == 0,
    ensures
        ((s + 1) as int + 1) % (spec.slots_per_epoch as int) != 0,
{
    let m = spec.slots_per_epoch as int;
    let q = (s as int + 1) / m;
    vstd::arithmetic::div_mod::lemma_fundamental_div_mod(s as int + 1, m);
    assert(s as int + 2 == m * q + 1);
    vstd::arithmetic::div_mod::lemma_mod_multiples_vanish(q, 1, m);
    vstd::arithmetic::div_mod::lemma_small_mod(1nat, m as nat);
}

} // verus!
