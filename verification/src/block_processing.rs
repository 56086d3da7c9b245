//! The per-block pipeline and its operation processors.
//!
//! Execution order is fixed and significant: header, randao reveal, eth1
//! vote, proposer slashings, attester slashings, attestations, deposits,
//! voluntary exits, transfers. Each processor validates a list of same-type
//! operations against the current state; one invalid item fails the whole
//! block.

use vstd::prelude::*;
use crate::hashing::{Hash256, clone_bytes, bytes_eq, sha256, sha256_of, xor_bytes,
    xor_bytes_spec, zero32_exec, zero32};
use crate::config::ChainSpec;
use crate::errors::BlockProcessingError;
use crate::state::{
    BeaconState, StateModel, epoch_of, previous_epoch_of, count_active, att_includes, attested,
    lemma_wf_same_shape,
};
use crate::types::{
    Attestation, AttestationData, AttestationDataView, AttesterSlashing, BeaconBlock,
    BeaconBlockHeader, Checkpoint,
    Deposit, Eth1Data, Eth1DataView, HeaderView, IndexedAttestation, PendingAttestation,
    PendingAttestationView, ProposerSlashing, Transfer, VoluntaryExit, compute_deposit_data_root,
    compute_header_root, deposit_data_root, header_root,
};
use crate::validator::{Validator, ValidatorView, FAR_FUTURE_EPOCH, is_active, is_slashable};

verus! {

broadcast use crate::hashing::lemma_bytes_deep_view, crate::hashing::lemma_deep_view_len;

/// Write one balance slot.
pub fn set_u64(v: &mut Vec<u64>, i: usize, value: u64)
    requires
        i < old(v)@.len(),
    ensures
        final(v)@ == old(v)@.update(i as int, value),
{
    let _ = v.remove(i);
    v.insert(i, value);
    proof {
        assert(v@ =~= old(v)@.update(i as int, value));
    }
}

/// Write one hash slot.
pub fn set_hash(v: &mut Vec<Hash256>, i: usize, value: Hash256)
    requires
        i < old(v)@.len(),
    ensures
        final(v)@.len() == old(v)@.len(),
        final(v).deep_view() == old(v).deep_view().update(i as int, value@),
{
    let ghost gval = value@;
    let _ = v.remove(i);
    v.insert(i, value);
    proof {
        assert(v@ =~= old(v)@.update(i as int, value));
        assert(v.deep_view() =~~= old(v).deep_view().update(i as int, gval));
    }
}

/// Write one justification bit.
pub fn set_bool(v: &mut Vec<bool>, i: usize, value: bool)
    requires
        i < old(v)@.len(),
    ensures
        final(v)@ == old(v)@.update(i as int, value),
{
    let _ = v.remove(i);
    v.insert(i, value);
    proof {
        assert(v@ =~= old(v)@.update(i as int, value));
    }
}

/// Credit `delta` to a balance; a sum beyond the balance type is reported,
/// never wrapped.
pub fn increase_balance(state: &mut BeaconState, index: usize, delta: u64, spec: &ChainSpec) -> (res:
    Result<(), BlockProcessingError>)
    requires
        (index as int) < old(state)@.balances.len(),
        old(state).wf(*spec),
    ensures
        final(state).wf(*spec),
        res is Ok <==> old(state)@.balances[index as int] + delta <= u64::MAX,
        res matches Ok(()) ==> final(state)@ == (StateModel {
            balances: old(state)@.balances.update(
                index as int,
                (old(state)@.balances[index as int] + delta) as u64,
            ),
            ..old(state)@
        }),
        res is Err ==> final(state)@ == old(state)@ && res == Err::<(), BlockProcessingError>(
            BlockProcessingError::ArithmeticOverflow,
        ),
        final(state).validators == old(state).validators,
{
    let current = state.balances[index];
    match current.checked_add(delta) {
        Some(next) => {
            set_u64(&mut state.balances, index, next);
            proof {
                assert(final(state)@ =~~= (StateModel {
                    balances: old(state)@.balances.update(index as int, next),
                    ..old(state)@
                }));
                lemma_wf_same_shape(*old(state), *state, *spec);
            }
            Ok(())
        }
        None => Err(BlockProcessingError::ArithmeticOverflow),
    }
}

/// Charge `delta` to a balance, saturating at zero.
pub fn decrease_balance(state: &mut BeaconState, index: usize, delta: u64, spec: &ChainSpec)
    requires
        (index as int) < old(state)@.balances.len(),
        old(state).wf(*spec),
    ensures
        final(state).wf(*spec),
        final(state)@ == (StateModel {
            balances: old(state)@.balances.update(
                index as int,
                saturating_sub(old(state)@.balances[index as int], delta),
            ),
            ..old(state)@
        }),
        final(state).validators == old(state).validators,
{
    let current = state.balances[index];
    let next = if current >= delta {
        current - delta
    } else {
        0
    };
    set_u64(&mut state.balances, index, next);
    proof {
        assert(final(state)@ =~~= (StateModel {
            balances: old(state)@.balances.update(index as int, next),
            ..old(state)@
        }));
        lemma_wf_same_shape(*old(state), *state, *spec);
    }
}

/// Subtraction on balances that stops at zero.
pub open spec fn saturating_sub(a: u64, b: u64) -> u64 {
    if a >= b {
        (a - b) as u64
    } else {
        0
    }
}

/// The validator at `i` is the expected proposer: active in the epoch, with
/// exactly `slot mod active-count` active validators before it.
pub open spec fn is_proposer(vals: Seq<ValidatorView>, epoch: u64, slot: u64, i: int) -> bool {
    &&& 0 <= i < vals.len()
    &&& is_active(vals[i], epoch)
    &&& count_active(vals.take(i), epoch) == (slot as int) % count_active(vals, epoch)
}

/// Active counts grow with the prefix.
pub proof fn lemma_count_active_mono(s: Seq<ValidatorView>, epoch: u64, i: int, j: int)
    requires
        0 <= i <= j <= s.len(),
    ensures
        count_active(s.take(i), epoch) <= count_active(s.take(j), epoch),
    decreases j - i,
{
    if i < j {
        lemma_count_active_mono(s, epoch, i + 1, j);
        assert(s.take(i + 1).drop_last() =~= s.take(i));
    }
}

/// At most one validator is the expected proposer.
pub proof fn lemma_proposer_unique(vals: Seq<ValidatorView>, epoch: u64, slot: u64, i: int, j: int)
    requires
        is_proposer(vals, epoch, slot, i),
        is_proposer(vals, epoch, slot, j),
    ensures
        i == j,
{
    if i < j {
        assert(vals.take(i + 1).drop_last() =~= vals.take(i));
        assert(vals.take(i + 1).last() == vals[i]);
        lemma_count_active_mono(vals, epoch, i + 1, j);
        assert(false);
    }
    if j < i {
        assert(vals.take(j + 1).drop_last() =~= vals.take(j));
        assert(vals.take(j + 1).last() == vals[j]);
        lemma_count_active_mono(vals, epoch, j + 1, i);
        assert(false);
    }
}

/// The first header rule a block breaks, if any: wrong slot, wrong chain
/// link, no expected proposer, a slashed proposer, or a bad signature.
pub open spec fn header_check(
    s: StateModel,
    block_slot: u64,
    parent_root: Seq<u8>,
    signature_ok: bool,
    verify_signature: bool,
    spec: ChainSpec,
) -> Option<BlockProcessingError> {
    let epoch = epoch_of(s.slot, spec);
    if block_slot != s.slot {
        Some(BlockProcessingError::HeaderSlotMismatch)
    } else if parent_root != header_root(s.latest_block_header) {
        Some(BlockProcessingError::HeaderParentRootMismatch)
    } else if count_active(s.validators, epoch) == 0 {
        Some(BlockProcessingError::HeaderProposerUnknown)
    } else if exists|i: int| is_proposer(s.validators, epoch, s.slot, i) && s.validators[i].slashed {
        Some(BlockProcessingError::HeaderProposerSlashed)
    } else if verify_signature && !signature_ok {
        Some(BlockProcessingError::HeaderSignatureInvalid)
    } else {
        None
    }
}

/// Check a block's header against the state and record it as the latest
/// header, its state root left unset until the next slot advance.
pub fn process_block_header(
    state: &mut BeaconState,
    block: &BeaconBlock,
    spec: &ChainSpec,
    verify_proposer_signature: bool,
) -> (res: Result<(), BlockProcessingError>)
    requires
        spec.wf(),
        old(state).wf(*spec),
    ensures
        final(state).wf(*spec),
        res matches Err(e) ==> final(state)@ == old(state)@ && Some(e) == header_check(
            old(state)@,
            block.slot,
            block.parent_root@,
            block.proposer_signature_ok,
            verify_proposer_signature,
            *spec,
        ),
        res is Ok ==> header_check(
            old(state)@,
            block.slot,
            block.parent_root@,
            block.proposer_signature_ok,
            verify_proposer_signature,
            *spec,
        ) is None,
        res is Ok ==> final(state)@ == (StateModel {
            latest_block_header: HeaderView {
                slot: block.slot,
                parent_root: block.parent_root@,
                state_root: zero32(),
                body_root: block.body_root@,
            },
            ..old(state)@
        }),
        final(state).slot == old(state).slot,
{
    if block.slot != state.slot {
        return Err(BlockProcessingError::HeaderSlotMismatch);
    }
    let expected_parent = compute_header_root(&state.latest_block_header);
    if !bytes_eq(&block.parent_root, &expected_parent) {
        return Err(BlockProcessingError::HeaderParentRootMismatch);
    }
    let proposer = match state.get_beacon_proposer_index(spec) {
        Some(i) => i,
        None => {
            return Err(BlockProcessingError::HeaderProposerUnknown);
        }
    };
    let slashed = match state.validators.get(proposer) {
        Some(v) => v.slashed,
        None => {
            proof {
                assert(false);
            }
            true
        }
    };
    if slashed {
        proof {
            assert(is_proposer(state@.validators, epoch_of(state.slot, *spec), state.slot,
                proposer as int) && state@.validators[proposer as int].slashed);
        }
        return Err(BlockProcessingError::HeaderProposerSlashed);
    }
    proof {
        assert forall|i: int|
            is_proposer(old(state)@.validators, epoch_of(old(state).slot, *spec), old(state).slot, i)
                implies !old(state)@.validators[i].slashed by {
            lemma_proposer_unique(
                old(state)@.validators,
                epoch_of(old(state).slot, *spec),
                old(state).slot,
                i,
                proposer as int,
            );
        }
    }
    if verify_proposer_signature && !block.proposer_signature_ok {
        return Err(BlockProcessingError::HeaderSignatureInvalid);
    }
    state.latest_block_header = BeaconBlockHeader {
        slot: block.slot,
        parent_root: clone_bytes(&block.parent_root),
        state_root: zero32_exec(),
        body_root: clone_bytes(&block.body_root),
    };
    proof {
        assert(final(state)@ =~~= (StateModel {
            latest_block_header: HeaderView {
                slot: block.slot,
                parent_root: block.parent_root@,
                state_root: zero32(),
                body_root: block.body_root@,
            },
            ..old(state)@
        }));
    }
    Ok(())
}

/// Fold a verified randao reveal into the current epoch's randomness mix.
pub fn process_randao(state: &mut BeaconState, block: &BeaconBlock, spec: &ChainSpec) -> (res:
    Result<(), BlockProcessingError>)
    requires
        spec.wf(),
        old(state).wf(*spec),
    ensures
        final(state).wf(*spec),
        res is Ok <==> block.body.randao_reveal_signature_ok,
        res matches Err(e) ==> final(state)@ == old(state)@ && e
            == BlockProcessingError::RandaoSignatureInvalid,
        res is Ok ==> final(state)@ == (StateModel {
            randao_mixes: old(state)@.randao_mixes.update(
                epoch_of(old(state).slot, *spec) as int % (
                spec.epochs_per_historical_vector as int),
                xor_bytes_spec(
                    old(state)@.randao_mixes[epoch_of(old(state).slot, *spec) as int % (
                    spec.epochs_per_historical_vector as int)],
                    sha256_of(block.body.randao_reveal@),
                ),
            ),
            ..old(state)@
        }),
        final(state).slot == old(state).slot,
{
    if !block.body.randao_reveal_signature_ok {
        return Err(BlockProcessingError::RandaoSignatureInvalid);
    }
    let epoch = state.current_epoch(spec);
    let len = state.randao_mixes.len();
    proof {
        assert(len == spec.epochs_per_historical_vector);
    }
    let idx_u64 = epoch % spec.epochs_per_historical_vector;
    proof {
        assert(idx_u64 < len as u64);
    }
    let idx = idx_u64 as usize;
    let reveal_digest = sha256(block.body.randao_reveal.as_slice());
    let current_mix = clone_bytes(&state.randao_mixes[idx]);
    proof {
        assert(state@.randao_mixes[idx as int].len() == 32);
        assert(state.randao_mixes@[idx as int].deep_view() == state.randao_mixes@[idx as int]@);
        assert(current_mix@.len() == 32);
    }
    let new_mix = xor_bytes(&current_mix, &reveal_digest);
    set_hash(&mut state.randao_mixes, idx, new_mix);
    proof {
        assert(final(state)@ =~~= (StateModel {
            randao_mixes: old(state)@.randao_mixes.update(
                idx as int,
                xor_bytes_spec(
                    old(state)@.randao_mixes[idx as int],
                    sha256_of(block.body.randao_reveal@),
                ),
            ),
            ..old(state)@
        }));
    }
    Ok(())
}

/// How many accumulated votes name this eth1-data record.
pub open spec fn count_votes(votes: Seq<Eth1DataView>, v: Eth1DataView) -> int
    decreases votes.len(),
{
    if votes.len() == 0 {
        0
    } else {
        count_votes(votes.drop_last(), v) + if votes.last() == v {
            1int
        } else {
            0int
        }
    }
}

/// Record the block's eth1 vote; when more than half of the per-period voting
/// window agrees, the winning record becomes the canonical eth1 data.
pub fn process_eth1_data(state: &mut BeaconState, block: &BeaconBlock, spec: &ChainSpec) -> (res:
    Result<(), BlockProcessingError>)
    requires
        spec.wf(),
        old(state).wf(*spec),
    ensures
        final(state).wf(*spec),
        res is Ok,
        final(state)@ == (StateModel {
            eth1_data_votes: old(state)@.eth1_data_votes.push(block.body.eth1_data@),
            eth1_data: if 2 * count_votes(
                old(state)@.eth1_data_votes.push(block.body.eth1_data@),
                block.body.eth1_data@,
            ) > spec.slots_per_eth1_voting_period {
                block.body.eth1_data@
            } else {
                old(state)@.eth1_data
            },
            ..old(state)@
        }),
        final(state).slot == old(state).slot,
{
    let vote = block.body.eth1_data.duplicate();
    let ghost gv = vote@;
    state.eth1_data_votes.push(vote);
    proof {
        assert(state.eth1_data_votes.deep_view() =~~= old(
            state,
        )@.eth1_data_votes.push(block.body.eth1_data@));
    }
    let mut matching: u64 = 0;
    let votes_len = state.eth1_data_votes.len();
    let mut k: usize = 0;
    while k < votes_len
        invariant
            k <= votes_len,
            votes_len == state.eth1_data_votes@.len(),
            matching <= k,
            matching == count_votes(
                state.eth1_data_votes.deep_view().take(k as int),
                block.body.eth1_data@,
            ),
            gv == block.body.eth1_data@,
            state.eth1_data_votes.deep_view().len() == votes_len,
        decreases votes_len - k,
    {
        if state.eth1_data_votes[k].equals(&block.body.eth1_data) {
            matching = matching + 1;
        }
        k = k + 1;
        proof {
            assert(state.eth1_data_votes.deep_view().take(k as int).drop_last()
                =~= state.eth1_data_votes.deep_view().take(k as int - 1));
        }
    }
    proof {
        assert(state.eth1_data_votes.deep_view().take(votes_len as int)
            =~= state.eth1_data_votes.deep_view());
    }
    if (matching as u128) * 2 > (spec.slots_per_eth1_voting_period as u128) {
        state.eth1_data = block.body.eth1_data.duplicate();
    }
    proof {
        assert(final(state)@ =~~= (StateModel {
            eth1_data_votes: old(state)@.eth1_data_votes.push(block.body.eth1_data@),
            eth1_data: if 2 * count_votes(
                old(state)@.eth1_data_votes.push(block.body.eth1_data@),
                block.body.eth1_data@,
            ) > spec.slots_per_eth1_voting_period {
                block.body.eth1_data@
            } else {
                old(state)@.eth1_data
            },
            ..old(state)@
        }));
    }
    Ok(())
}

} // verus!

verus! {

/// The latest exit epoch already assigned to any validator.
pub open spec fn max_exit_epoch(s: Seq<ValidatorView>) -> int
    decreases s.len(),
{
    if s.len() == 0 {
        0
    } else {
        let rest = max_exit_epoch(s.drop_last());
        if s.last().exit_epoch != FAR_FUTURE_EPOCH && s.last().exit_epoch > rest {
            s.last().exit_epoch as int
        } else {
            rest
        }
    }
}

/// How many validators already leave at epoch `e`.
pub open spec fn count_exiting_at(s: Seq<ValidatorView>, e: int) -> int
    decreases s.len(),
{
    if s.len() == 0 {
        0
    } else {
        count_exiting_at(s.drop_last(), e) + if s.last().exit_epoch == e {
            1int
        } else {
            0int
        }
    }
}

/// The most validators allowed to change status per epoch.
pub open spec fn churn_limit(s: Seq<ValidatorView>, epoch: u64, spec: ChainSpec) -> int {
    let by_quotient = count_active(s, epoch) / (spec.churn_limit_quotient as int);
    if by_quotient > spec.min_per_epoch_churn_limit {
        by_quotient
    } else {
        spec.min_per_epoch_churn_limit as int
    }
}

/// The epoch a validator leaving now is assigned: the end of the current exit
/// queue, pushed one epoch further when the queue's epoch is at the churn
/// limit.
pub open spec fn exit_queue_epoch_spec(s: Seq<ValidatorView>, epoch: u64, spec: ChainSpec) -> int {
    let earliest = epoch + 1 + spec.activation_exit_delay;
    let base = if max_exit_epoch(s) > earliest {
        max_exit_epoch(s)
    } else {
        earliest as int
    };
    if count_exiting_at(s, base) >= churn_limit(s, epoch, spec) {
        base + 1
    } else {
        base
    }
}

/// A record with its exit and withdrawable epochs assigned.
pub open spec fn with_exit(v: ValidatorView, exit_epoch: u64, withdrawable_epoch: u64) -> ValidatorView {
    ValidatorView { exit_epoch, withdrawable_epoch, ..v }
}

/// What starting a validator's exit does to the state: nothing if an exit is
/// already under way; otherwise the validator joins the exit queue, its
/// withdrawable epoch a fixed delay later. An epoch beyond the epoch type is
/// reported, never wrapped.
pub open spec fn initiate_exit_outcome(s: StateModel, idx: int, spec: ChainSpec) -> Result<
    StateModel,
    BlockProcessingError,
> {
    let v = s.validators[idx];
    if v.exit_epoch != FAR_FUTURE_EPOCH {
        Ok(s)
    } else {
        let eq = exit_queue_epoch_spec(s.validators, epoch_of(s.slot, spec), spec);
        let w = eq + spec.min_validator_withdrawability_delay;
        if w <= u64::MAX {
            Ok(
                StateModel {
                    validators: s.validators.update(idx, with_exit(v, eq as u64, w as u64)),
                    ..s
                },
            )
        } else {
            Err(BlockProcessingError::ArithmeticOverflow)
        }
    }
}

impl BeaconState {
    /// The latest exit epoch already assigned, as a value.
    fn max_assigned_exit_epoch(&self) -> (r: u64)
        requires
            self.validators.well_formed(),
        ensures
            r == max_exit_epoch(self@.validators),
    {
        let n = self.validators.len();
        let mut best: u64 = 0;
        let mut i: usize = 0;
        while i < n
            invariant
                self.validators.well_formed(),
                i <= n,
                n == self@.validators.len(),
                best == max_exit_epoch(self@.validators.take(i as int)),
            decreases n - i,
        {
            match self.validators.get(i) {
                Some(v) => {
                    if v.exit_epoch != FAR_FUTURE_EPOCH && v.exit_epoch > best {
                        best = v.exit_epoch;
                    }
                }
                None => {
                    proof {
                        assert(false);
                    }
                }
            }
            i = i + 1;
            proof {
                assert(self@.validators.take(i as int).drop_last() =~= self@.validators.take(
                    i as int - 1,
                ));
            }
        }
        proof {
            assert(self@.validators.take(n as int) =~= self@.validators);
        }
        best
    }

    /// How many validators already leave at epoch `e`, as a value.
    fn count_exiting(&self, e: u64) -> (r: usize)
        requires
            self.validators.well_formed(),
        ensures
            r == count_exiting_at(self@.validators, e as int),
    {
        let n = self.validators.len();
        let mut count: usize = 0;
        let mut i: usize = 0;
        while i < n
            invariant
                self.validators.well_formed(),
                i <= n,
                n == self@.validators.len(),
                count <= i,
                count == count_exiting_at(self@.validators.take(i as int), e as int),
            decreases n - i,
        {
            match self.validators.get(i) {
                Some(v) => {
                    if v.exit_epoch == e {
                        count = count + 1;
                    }
                }
                None => {
                    proof {
                        assert(false);
                    }
                }
            }
            i = i + 1;
            proof {
                assert(self@.validators.take(i as int).drop_last() =~= self@.validators.take(
                    i as int - 1,
                ));
            }
        }
        proof {
            assert(self@.validators.take(n as int) =~= self@.validators);
        }
        count
    }
}

/// Start a validator's exit, respecting the per-epoch churn limit; a second
/// start is a no-op.
pub fn initiate_validator_exit(state: &mut BeaconState, index: usize, spec: &ChainSpec) -> (res:
    Result<(), BlockProcessingError>)
    requires
        spec.wf(),
        old(state).wf(*spec),
        (index as int) < old(state)@.validators.len(),
    ensures
        final(state).wf(*spec),
        res matches Ok(()) ==> initiate_exit_outcome(old(state)@, index as int, *spec) == Ok::<
            StateModel,
            BlockProcessingError,
        >(final(state)@),
        res matches Err(e) ==> initiate_exit_outcome(old(state)@, index as int, *spec) == Err::<
            StateModel,
            BlockProcessingError,
        >(e) && final(state)@ == old(state)@,
        final(state).slot == old(state).slot,
{
    let already_exiting = match state.validators.get(index) {
        Some(v) => v.exit_epoch != FAR_FUTURE_EPOCH,
        None => {
            proof {
                assert(false);
            }
            true
        }
    };
    if already_exiting {
        return Ok(());
    }
    let epoch = state.current_epoch(spec);
    let earliest = match epoch.checked_add(1) {
        Some(x) => match x.checked_add(spec.activation_exit_delay) {
            Some(y) => y,
            None => {
                return Err(BlockProcessingError::ArithmeticOverflow);
            }
        },
        None => {
            return Err(BlockProcessingError::ArithmeticOverflow);
        }
    };
    let max_exit = state.max_assigned_exit_epoch();
    let base = if max_exit > earliest {
        max_exit
    } else {
        earliest
    };
    let exiting = state.count_exiting(base);
    let active = state.active_validator_count(epoch);
    let by_quotient = (active as u64) / spec.churn_limit_quotient;
    let limit = if by_quotient > spec.min_per_epoch_churn_limit {
        by_quotient
    } else {
        spec.min_per_epoch_churn_limit
    };
    let exit_queue_epoch = if (exiting as u64) >= limit {
        match base.checked_add(1) {
            Some(x) => x,
            None => {
                return Err(BlockProcessingError::ArithmeticOverflow);
            }
        }
    } else {
        base
    };
    let withdrawable = match exit_queue_epoch.checked_add(spec.min_validator_withdrawability_delay)
        {
        Some(x) => x,
        None => {
            return Err(BlockProcessingError::ArithmeticOverflow);
        }
    };
    let new_v = match state.validators.get(index) {
        Some(v) => {
            let mut nv = v.duplicate();
            nv.exit_epoch = exit_queue_epoch;
            nv.withdrawable_epoch = withdrawable;
            nv
        }
        None => {
            proof {
                assert(false);
            }
            return Err(BlockProcessingError::ArithmeticOverflow);
        }
    };
    proof {
        assert(new_v@ =~= with_exit(
            old(state)@.validators[index as int],
            exit_queue_epoch,
            withdrawable,
        ));
    }
    match state.validators.replace(index, new_v) {
        Ok(()) => {
            proof {
                assert(final(state)@ =~~= (StateModel {
                    validators: old(state)@.validators.update(
                        index as int,
                        with_exit(old(state)@.validators[index as int], exit_queue_epoch,
                        withdrawable),
                    ),
                    ..old(state)@
                }));
            }
            Ok(())
        }
        Err(_) => {
            proof {
                assert(false);
            }
            Err(BlockProcessingError::ArithmeticOverflow)
        }
    }
}

} // verus!

verus! {

/// The expected proposer of the given slot, as a value of the model alone.
pub open spec fn the_proposer(vals: Seq<ValidatorView>, epoch: u64, slot: u64) -> Option<int> {
    if count_active(vals, epoch) == 0 {
        None
    } else {
        Some(choose|i: int| is_proposer(vals, epoch, slot, i))
    }
}

/// A record marked slashed: withdrawable pushed out, effective balance
/// charged the penalty.
pub open spec fn slashed_view(v: ValidatorView, withdrawable: u64, penalty: u64) -> ValidatorView {
    ValidatorView {
        slashed: true,
        withdrawable_epoch: withdrawable,
        effective_balance: saturating_sub(v.effective_balance, penalty),
        ..v
    }
}

/// What slashing one validator does to the state: its exit is started, it is
/// marked slashed with its withdrawable epoch pushed to the end of the
/// slashing window, its effective balance and balance are charged the penalty
/// fraction, and the proposer is credited the whistleblower reward.
pub open spec fn slash_outcome(s: StateModel, idx: int, proposer: int, spec: ChainSpec) -> Result<
    StateModel,
    BlockProcessingError,
> {
    match initiate_exit_outcome(s, idx, spec) {
        Err(e) => Err(e),
        Ok(s1) => {
            let v = s1.validators[idx];
            let cur = epoch_of(s1.slot, spec);
            let pushed = cur + spec.epochs_per_slashings_vector;
            let w2 = if pushed > v.withdrawable_epoch {
                pushed as int
            } else {
                v.withdrawable_epoch as int
            };
            if w2 > u64::MAX {
                Err(BlockProcessingError::ArithmeticOverflow)
            } else {
                let penalty = (v.effective_balance / spec.min_slashing_penalty_quotient) as u64;
                let s2 = StateModel {
                    validators: s1.validators.update(idx, slashed_view(v, w2 as u64, penalty)),
                    ..s1
                };
                let s3 = StateModel {
                    balances: s2.balances.update(
                        idx,
                        saturating_sub(s2.balances[idx], penalty),
                    ),
                    ..s2
                };
                let reward = (v.effective_balance / spec.whistleblower_reward_quotient) as u64;
                if s3.balances[proposer] + reward <= u64::MAX {
                    Ok(
                        StateModel {
                            balances: s3.balances.update(
                                proposer,
                                (s3.balances[proposer] + reward) as u64,
                            ),
                            ..s3
                        },
                    )
                } else {
                    Err(BlockProcessingError::ArithmeticOverflow)
                }
            }
        }
    }
}

/// Slash one validator and credit the proposer the whistleblower reward.
pub fn slash_validator(
    state: &mut BeaconState,
    slashed_index: usize,
    proposer_index: usize,
    spec: &ChainSpec,
) -> (res: Result<(), BlockProcessingError>)
    requires
        spec.wf(),
        old(state).wf(*spec),
        (slashed_index as int) < old(state)@.validators.len(),
        (proposer_index as int) < old(state)@.validators.len(),
    ensures
        final(state).wf(*spec),
        res matches Ok(()) ==> slash_outcome(old(state)@, slashed_index as int,
        proposer_index as int, *spec) == Ok::<StateModel, BlockProcessingError>(final(state)@),
        res matches Err(e) ==> slash_outcome(old(state)@, slashed_index as int,
        proposer_index as int, *spec) == Err::<StateModel, BlockProcessingError>(e),
        final(state).slot == old(state).slot,
{
    match initiate_validator_exit(state, slashed_index, spec) {
        Ok(()) => {}
        Err(e) => {
            return Err(e);
        }
    }
    let ghost s1 = state@;
    let v = match state.validators.get(slashed_index) {
        Some(v) => v.duplicate(),
        None => {
            proof {
                assert(false);
            }
            return Err(BlockProcessingError::ArithmeticOverflow);
        }
    };
    let cur = state.current_epoch(spec);
    let pushed = match cur.checked_add(spec.epochs_per_slashings_vector) {
        Some(x) => x,
        None => {
            return Err(BlockProcessingError::ArithmeticOverflow);
        }
    };
    let w2 = if pushed > v.withdrawable_epoch {
        pushed
    } else {
        v.withdrawable_epoch
    };
    let penalty = v.effective_balance / spec.min_slashing_penalty_quotient;
    let mut new_v = v.duplicate();
    new_v.slashed = true;
    new_v.withdrawable_epoch = w2;
    new_v.effective_balance = if v.effective_balance >= penalty {
        v.effective_balance - penalty
    } else {
        0
    };
    proof {
        assert(new_v@ =~= slashed_view(s1.validators[slashed_index as int], w2, penalty));
    }
    match state.validators.replace(slashed_index, new_v) {
        Ok(()) => {}
        Err(_) => {
            proof {
                assert(false);
            }
            return Err(BlockProcessingError::ArithmeticOverflow);
        }
    }
    let ghost s2 = state@;
    proof {
        assert(s2 =~~= (StateModel {
            validators: s1.validators.update(
                slashed_index as int,
                slashed_view(s1.validators[slashed_index as int], w2, penalty),
            ),
            ..s1
        }));
    }
    proof {
        assert(state.wf(*spec));
    }
    let ghost pre_tree = state.validators;
    decrease_balance(state, slashed_index, penalty, spec);
    let ghost s3 = state@;
    proof {
        assert(s3 =~~= (StateModel {
            balances: s2.balances.update(
                slashed_index as int,
                saturating_sub(s2.balances[slashed_index as int], penalty),
            ),
            ..s2
        }));
        assert(state.validators == pre_tree);
        assert(pre_tree.well_formed());
        assert(state.validators.well_formed());
        assert(state.balances@.len() == state.validators@.len());
        assert(state.justification_bits@.len() == 4);
        assert(state.randao_mixes.deep_view().len() == state.randao_mixes@.len());
        assert(state.randao_mixes@.len() == spec.epochs_per_historical_vector);
        assert(state.block_roots.deep_view().len() == state.block_roots@.len());
        assert(state.block_roots@.len() == spec.slots_per_historical_root);
        assert forall|i: int|
            0 <= i < state@.randao_mixes.len() implies (#[trigger] state@.randao_mixes[i]).len()
                == 32 by {
            assert(state@.randao_mixes[i] == s2.randao_mixes[i]);
        }
        assert(state.wf(*spec));
    }
    let reward = v.effective_balance / spec.whistleblower_reward_quotient;
    match increase_balance(state, proposer_index, reward, spec) {
        Ok(()) => {
            proof {
                assert(final(state)@ =~~= (StateModel {
                    balances: s3.balances.update(
                        proposer_index as int,
                        (s3.balances[proposer_index as int] + reward) as u64,
                    ),
                    ..s3
                }));
            }
            Ok(())
        }
        Err(e) => Err(e),
    }
}

/// The first rule a proposer-slashing record breaks, if any.
pub open spec fn proposer_slashing_check(
    s: StateModel,
    ps: ProposerSlashing,
    spec: ChainSpec,
) -> Option<BlockProcessingError> {
    let cur = epoch_of(s.slot, spec);
    if !((ps.proposer_index as int) < s.validators.len()) {
        Some(BlockProcessingError::ProposerSlashingUnknownProposer)
    } else if ps.header_1.slot != ps.header_2.slot {
        Some(BlockProcessingError::ProposerSlashingSlotMismatch)
    } else if ps.header_1@ == ps.header_2@ {
        Some(BlockProcessingError::ProposerSlashingHeadersIdentical)
    } else if !is_slashable(s.validators[ps.proposer_index as int], cur) {
        Some(BlockProcessingError::ProposerSlashingNotSlashable)
    } else if !(ps.signature_1_ok && ps.signature_2_ok) {
        Some(BlockProcessingError::ProposerSlashingSignatureInvalid)
    } else {
        None
    }
}

/// Slashing with the proposer looked up in the state itself.
pub open spec fn slash_step(s: StateModel, idx: int, spec: ChainSpec) -> Result<
    StateModel,
    BlockProcessingError,
> {
    match the_proposer(s.validators, epoch_of(s.slot, spec), s.slot) {
        None => Err(BlockProcessingError::NoProposer),
        Some(p) => slash_outcome(s, idx, p, spec),
    }
}

/// One proposer-slashing record applied to the state.
pub open spec fn proposer_slashing_step(
    s: StateModel,
    ps: ProposerSlashing,
    spec: ChainSpec,
) -> Result<StateModel, BlockProcessingError> {
    match proposer_slashing_check(s, ps, spec) {
        Some(e) => Err(e),
        None => slash_step(s, ps.proposer_index as int, spec),
    }
}

/// A list of proposer-slashing records applied in order; the first rejected
/// record rejects the list.
pub open spec fn proposer_slashings_fold(
    s: StateModel,
    list: Seq<ProposerSlashing>,
    spec: ChainSpec,
) -> Result<StateModel, BlockProcessingError>
    decreases list.len(),
{
    if list.len() == 0 {
        Ok(s)
    } else {
        match proposer_slashing_step(s, list[0], spec) {
            Err(e) => Err(e),
            Ok(m) => proposer_slashings_fold(m, list.skip(1), spec),
        }
    }
}

/// Verify two conflicting signed headers per record and slash each offending
/// proposer.
pub fn process_proposer_slashings(
    state: &mut BeaconState,
    proposer_slashings: &Vec<ProposerSlashing>,
    spec: &ChainSpec,
) -> (res: Result<(), BlockProcessingError>)
    requires
        spec.wf(),
        old(state).wf(*spec),
    ensures
        final(state).wf(*spec),
        res matches Ok(()) ==> proposer_slashings_fold(old(state)@, proposer_slashings@, *spec)
            == Ok::<StateModel, BlockProcessingError>(final(state)@),
        res matches Err(e) ==> proposer_slashings_fold(old(state)@, proposer_slashings@, *spec)
            == Err::<StateModel, BlockProcessingError>(e),
        final(state).slot == old(state).slot,
{
    let n = proposer_slashings.len();
    proof {
        assert(proposer_slashings@.skip(0) =~= proposer_slashings@);
    }
    let mut i: usize = 0;
    while i < n
        invariant
            spec.wf(),
            state.wf(*spec),
            state.slot == old(state).slot,
            i <= n,
            n == proposer_slashings@.len(),
            proposer_slashings_fold(old(state)@, proposer_slashings@, *spec)
                == proposer_slashings_fold(state@, proposer_slashings@.skip(i as int), *spec),
        decreases n - i,
    {
        let ghost pre = state@;
        let ghost rest = proposer_slashings@.skip(i as int);
        proof {
            assert(rest[0] == proposer_slashings@[i as int]);
            assert(rest.skip(1) =~= proposer_slashings@.skip(i as int + 1));
        }
        let ps = &proposer_slashings[i];
        let cur = state.current_epoch(spec);
        let idx_u64 = ps.proposer_index;
        if !(idx_u64 < state.validators.len() as u64) {
            return Err(BlockProcessingError::ProposerSlashingUnknownProposer);
        }
        let idx = idx_u64 as usize;
        if ps.header_1.slot != ps.header_2.slot {
            return Err(BlockProcessingError::ProposerSlashingSlotMismatch);
        }
        if ps.header_1.equals(&ps.header_2) {
            return Err(BlockProcessingError::ProposerSlashingHeadersIdentical);
        }
        let slashable = match state.validators.get(idx) {
            Some(v) => v.is_slashable_at(cur),
            None => {
                proof {
                    assert(false);
                }
                false
            }
        };
        if !slashable {
            return Err(BlockProcessingError::ProposerSlashingNotSlashable);
        }
        if !(ps.signature_1_ok && ps.signature_2_ok) {
            return Err(BlockProcessingError::ProposerSlashingSignatureInvalid);
        }
        let proposer = match state.get_beacon_proposer_index(spec) {
            Some(p) => p,
            None => {
                return Err(BlockProcessingError::NoProposer);
            }
        };
        proof {
            let epoch = epoch_of(pre.slot, *spec);
            assert(is_proposer(pre.validators, epoch, pre.slot, proposer as int));
            let w = choose|j: int| is_proposer(pre.validators, epoch, pre.slot, j);
            lemma_proposer_unique(pre.validators, epoch, pre.slot, w, proposer as int);
            assert(the_proposer(pre.validators, epoch, pre.slot) == Some(proposer as int));
        }
        match slash_validator(state, idx, proposer, spec) {
            Ok(()) => {}
            Err(e) => {
                proof {
                    assert(proposer_slashing_step(pre, rest[0], *spec) == Err::<
                        StateModel,
                        BlockProcessingError,
                    >(e));
                }
                return Err(e);
            }
        }
        i = i + 1;
        proof {
            assert(proposer_slashings_fold(old(state)@, proposer_slashings@, *spec)
                == proposer_slashings_fold(state@, proposer_slashings@.skip(i as int), *spec));
        }
    }
    proof {
        assert(proposer_slashings@.skip(n as int) =~= Seq::<ProposerSlashing>::empty());
    }
    Ok(())
}

/// The first rule a voluntary exit breaks, if any.
pub open spec fn exit_check(s: StateModel, exit: VoluntaryExit, spec: ChainSpec) -> Option<
    BlockProcessingError,
> {
    let cur = epoch_of(s.slot, spec);
    if !((exit.validator_index as int) < s.validators.len()) {
        Some(BlockProcessingError::ExitUnknownValidator)
    } else {
        let v = s.validators[exit.validator_index as int];
        if !is_active(v, cur) {
            Some(BlockProcessingError::ExitNotActive)
        } else if v.exit_epoch != FAR_FUTURE_EPOCH {
            Some(BlockProcessingError::ExitAlreadyInitiated)
        } else if cur < exit.epoch {
            Some(BlockProcessingError::ExitFutureEpoch)
        } else if (cur as int) < v.activation_epoch + spec.persistent_committee_period {
            Some(BlockProcessingError::ExitTooYoung)
        } else if !exit.signature_ok {
            Some(BlockProcessingError::ExitSignatureInvalid)
        } else {
            None
        }
    }
}

/// One voluntary exit applied to the state.
pub open spec fn exit_step(s: StateModel, exit: VoluntaryExit, spec: ChainSpec) -> Result<
    StateModel,
    BlockProcessingError,
> {
    match exit_check(s, exit, spec) {
        Some(e) => Err(e),
        None => initiate_exit_outcome(s, exit.validator_index as int, spec),
    }
}

/// A list of voluntary exits applied in order.
pub open spec fn exits_fold(s: StateModel, list: Seq<VoluntaryExit>, spec: ChainSpec) -> Result<
    StateModel,
    BlockProcessingError,
>
    decreases list.len(),
{
    if list.len() == 0 {
        Ok(s)
    } else {
        match exit_step(s, list[0], spec) {
            Err(e) => Err(e),
            Ok(m) => exits_fold(m, list.skip(1), spec),
        }
    }
}

/// Let each mature, active, verified requester leave, respecting the churn
/// limit.
pub fn process_exits(
    state: &mut BeaconState,
    voluntary_exits: &Vec<VoluntaryExit>,
    spec: &ChainSpec,
) -> (res: Result<(), BlockProcessingError>)
    requires
        spec.wf(),
        old(state).wf(*spec),
    ensures
        final(state).wf(*spec),
        res matches Ok(()) ==> exits_fold(old(state)@, voluntary_exits@, *spec) == Ok::<
            StateModel,
            BlockProcessingError,
        >(final(state)@),
        res matches Err(e) ==> exits_fold(old(state)@, voluntary_exits@, *spec) == Err::<
            StateModel,
            BlockProcessingError,
        >(e),
        final(state).slot == old(state).slot,
{
    let n = voluntary_exits.len();
    proof {
        assert(voluntary_exits@.skip(0) =~= voluntary_exits@);
    }
    let mut i: usize = 0;
    while i < n
        invariant
            spec.wf(),
            state.wf(*spec),
            state.slot == old(state).slot,
            i <= n,
            n == voluntary_exits@.len(),
            exits_fold(old(state)@, voluntary_exits@, *spec) == exits_fold(
                state@,
                voluntary_exits@.skip(i as int),
                *spec,
            ),
        decreases n - i,
    {
        let ghost pre = state@;
        let ghost rest = voluntary_exits@.skip(i as int);
        proof {
            assert(rest[0] == voluntary_exits@[i as int]);
            assert(rest.skip(1) =~= voluntary_exits@.skip(i as int + 1));
        }
        let exit = &voluntary_exits[i];
        let cur = state.current_epoch(spec);
        if !(exit.validator_index < state.validators.len() as u64) {
            return Err(BlockProcessingError::ExitUnknownValidator);
        }
        let idx = exit.validator_index as usize;
        let v = match state.validators.get(idx) {
            Some(v) => v.duplicate(),
            None => {
                proof {
                    assert(false);
                }
                return Err(BlockProcessingError::ExitUnknownValidator);
            }
        };
        if !v.is_active_at(cur) {
            return Err(BlockProcessingError::ExitNotActive);
        }
        if v.exit_epoch != FAR_FUTURE_EPOCH {
            return Err(BlockProcessingError::ExitAlreadyInitiated);
        }
        if cur < exit.epoch {
            return Err(BlockProcessingError::ExitFutureEpoch);
        }
        let maturity = match v.activation_epoch.checked_add(spec.persistent_committee_period) {
            Some(x) => x,
            None => {
                // Maturity beyond the epoch type can never have been reached.
                proof {
                    assert((cur as int) < v@.activation_epoch + spec.persistent_committee_period);
                }
                return Err(BlockProcessingError::ExitTooYoung);
            }
        };
        if cur < maturity {
            return Err(BlockProcessingError::ExitTooYoung);
        }
        if !exit.signature_ok {
            return Err(BlockProcessingError::ExitSignatureInvalid);
        }
        match initiate_validator_exit(state, idx, spec) {
            Ok(()) => {}
            Err(e) => {
                return Err(e);
            }
        }
        i = i + 1;
        proof {
            assert(exits_fold(old(state)@, voluntary_exits@, *spec) == exits_fold(
                state@,
                voluntary_exits@.skip(i as int),
                *spec,
            ));
        }
    }
    proof {
        assert(voluntary_exits@.skip(n as int) =~= Seq::<VoluntaryExit>::empty());
    }
    Ok(())
}

} // verus!

verus! {

/// The first rule an attestation breaks, if any: a target epoch other than
/// the current or previous one, a source not matching the justified
/// checkpoint of that epoch, inclusion too early or too late, a participation
/// list of the wrong size, or a bad aggregate signature.
pub open spec fn attestation_check(s: StateModel, a: Attestation, spec: ChainSpec) -> Option<
    BlockProcessingError,
> {
    let cur = epoch_of(s.slot, spec);
    let prev = previous_epoch_of(cur);
    let data = a.data@;
    if !(data.target.epoch == cur || data.target.epoch == prev) {
        Some(BlockProcessingError::AttestationBadTargetEpoch)
    } else if data.target.epoch == cur && data.source != s.current_justified_checkpoint {
        Some(BlockProcessingError::AttestationBadSource)
    } else if data.target.epoch != cur && data.source != s.previous_justified_checkpoint {
        Some(BlockProcessingError::AttestationBadSource)
    } else if !(data.slot + spec.min_attestation_inclusion_delay <= s.slot && s.slot <= data.slot
        + spec.slots_per_epoch) {
        Some(BlockProcessingError::AttestationBadInclusionDelay)
    } else if a.aggregation_bits@.len() != s.validators.len() {
        Some(BlockProcessingError::AttestationBadBits)
    } else if !a.signature_ok {
        Some(BlockProcessingError::AttestationSignatureInvalid)
    } else {
        None
    }
}

/// One attestation checked and appended to the epoch's pending accumulator.
pub open spec fn attestation_step(s: StateModel, a: Attestation, spec: ChainSpec) -> Result<
    StateModel,
    BlockProcessingError,
> {
    match attestation_check(s, a, spec) {
        Some(e) => Err(e),
        None => match the_proposer(s.validators, epoch_of(s.slot, spec), s.slot) {
            None => Err(BlockProcessingError::NoProposer),
            Some(p) => {
                let pending = PendingAttestationView {
                    data: a.data@,
                    aggregation_bits: a.aggregation_bits@,
                    inclusion_delay: (s.slot - a.data.slot) as u64,
                    proposer_index: p as u64,
                };
                if a.data@.target.epoch == epoch_of(s.slot, spec) {
                    Ok(
                        StateModel {
                            current_epoch_attestations: s.current_epoch_attestations.push(pending),
                            ..s
                        },
                    )
                } else {
                    Ok(
                        StateModel {
                            previous_epoch_attestations: s.previous_epoch_attestations.push(
                                pending,
                            ),
                            ..s
                        },
                    )
                }
            }
        },
    }
}

/// A list of attestations applied in order.
pub open spec fn attestations_fold(s: StateModel, list: Seq<Attestation>, spec: ChainSpec) -> Result<
    StateModel,
    BlockProcessingError,
>
    decreases list.len(),
{
    if list.len() == 0 {
        Ok(s)
    } else {
        match attestation_step(s, list[0], spec) {
            Err(e) => Err(e),
            Ok(m) => attestations_fold(m, list.skip(1), spec),
        }
    }
}

/// Validate each attestation and add it to the pending accumulator that epoch
/// accounting later consumes.
pub fn process_attestations(
    state: &mut BeaconState,
    attestations: &Vec<Attestation>,
    spec: &ChainSpec,
) -> (res: Result<(), BlockProcessingError>)
    requires
        spec.wf(),
        old(state).wf(*spec),
    ensures
        final(state).wf(*spec),
        res matches Ok(()) ==> attestations_fold(old(state)@, attestations@, *spec) == Ok::<
            StateModel,
            BlockProcessingError,
        >(final(state)@),
        res matches Err(e) ==> attestations_fold(old(state)@, attestations@, *spec) == Err::<
            StateModel,
            BlockProcessingError,
        >(e),
        final(state).slot == old(state).slot,
{
    let n = attestations.len();
    proof {
        assert(attestations@.skip(0) =~= attestations@);
    }
    let mut i: usize = 0;
    while i < n
        invariant
            spec.wf(),
            state.wf(*spec),
            state.slot == old(state).slot,
            i <= n,
            n == attestations@.len(),
            attestations_fold(old(state)@, attestations@, *spec) == attestations_fold(
                state@,
                attestations@.skip(i as int),
                *spec,
            ),
        decreases n - i,
    {
        let ghost pre = state@;
        let ghost rest = attestations@.skip(i as int);
        proof {
            assert(rest[0] == attestations@[i as int]);
            assert(rest.skip(1) =~= attestations@.skip(i as int + 1));
        }
        let a = &attestations[i];
        let cur = state.current_epoch(spec);
        let prev = state.previous_epoch(spec);
        let target_epoch = a.data.target.epoch;
        if !(target_epoch == cur || target_epoch == prev) {
            return Err(BlockProcessingError::AttestationBadTargetEpoch);
        }
        if target_epoch == cur {
            if !a.data.source.equals(&state.current_justified_checkpoint) {
                return Err(BlockProcessingError::AttestationBadSource);
            }
        } else {
            if !a.data.source.equals(&state.previous_justified_checkpoint) {
                return Err(BlockProcessingError::AttestationBadSource);
            }
        }
        let lower_ok = match a.data.slot.checked_add(spec.min_attestation_inclusion_delay) {
            Some(x) => x <= state.slot,
            None => false,
        };
        let upper_ok = match a.data.slot.checked_add(spec.slots_per_epoch) {
            Some(x) => state.slot <= x,
            None => true,
        };
        if !(lower_ok && upper_ok) {
            return Err(BlockProcessingError::AttestationBadInclusionDelay);
        }
        if a.aggregation_bits.len() != state.validators.len() {
            return Err(BlockProcessingError::AttestationBadBits);
        }
        if !a.signature_ok {
            return Err(BlockProcessingError::AttestationSignatureInvalid);
        }
        let proposer = match state.get_beacon_proposer_index(spec) {
            Some(p) => p,
            None => {
                return Err(BlockProcessingError::NoProposer);
            }
        };
        proof {
            let epoch = epoch_of(pre.slot, *spec);
            assert(is_proposer(pre.validators, epoch, pre.slot, proposer as int));
            let w = choose|j: int| is_proposer(pre.validators, epoch, pre.slot, j);
            lemma_proposer_unique(pre.validators, epoch, pre.slot, w, proposer as int);
            assert(the_proposer(pre.validators, epoch, pre.slot) == Some(proposer as int));
        }
        let mut bits: Vec<bool> = Vec::new();
        let mut b: usize = 0;
        while b < a.aggregation_bits.len()
            invariant
                b <= a.aggregation_bits@.len(),
                bits@ == a.aggregation_bits@.take(b as int),
            decreases a.aggregation_bits@.len() - b,
        {
            bits.push(a.aggregation_bits[b]);
            b = b + 1;
            proof {
                assert(bits@ =~= a.aggregation_bits@.take(b as int));
            }
        }
        proof {
            assert(bits@ =~= a.aggregation_bits@);
        }
        let pending = PendingAttestation {
            data: a.data.duplicate(),
            aggregation_bits: bits,
            inclusion_delay: state.slot - a.data.slot,
            proposer_index: proposer as u64,
        };
        let ghost gpending = pending@;
        if target_epoch == cur {
            state.current_epoch_attestations.push(pending);
            proof {
                assert(state.current_epoch_attestations.deep_view()
                    =~~= pre.current_epoch_attestations.push(gpending));
                assert(state@ =~~= (StateModel {
                    current_epoch_attestations: pre.current_epoch_attestations.push(gpending),
                    ..pre
                }));
            }
        } else {
            state.previous_epoch_attestations.push(pending);
            proof {
                assert(state.previous_epoch_attestations.deep_view()
                    =~~= pre.previous_epoch_attestations.push(gpending));
                assert(state@ =~~= (StateModel {
                    previous_epoch_attestations: pre.previous_epoch_attestations.push(gpending),
                    ..pre
                }));
            }
        }
        i = i + 1;
        proof {
            assert(gpending =~= (PendingAttestationView {
                data: rest[0].data@,
                aggregation_bits: rest[0].aggregation_bits@,
                inclusion_delay: (pre.slot - rest[0].data.slot) as u64,
                proposer_index: proposer as u64,
            }));
            assert(attestations_fold(old(state)@, attestations@, *spec) == attestations_fold(
                state@,
                attestations@.skip(i as int),
                *spec,
            ));
        }
    }
    proof {
        assert(attestations@.skip(n as int) =~= Seq::<Attestation>::empty());
    }
    Ok(())
}

} // verus!

verus! {

/// The first (smallest) index whose record carries this public key.
pub open spec fn first_with_pubkey(vals: Seq<ValidatorView>, pk: Seq<u8>) -> int {
    choose|i: int| is_first_with_pubkey(vals, pk, i)
}

/// Index `i` carries the key and no earlier index does.
pub open spec fn is_first_with_pubkey(vals: Seq<ValidatorView>, pk: Seq<u8>, i: int) -> bool {
    &&& 0 <= i < vals.len()
    &&& vals[i].pubkey == pk
    &&& forall|j: int| 0 <= j < i ==> (#[trigger] vals[j]).pubkey != pk
}

/// Some record carries this public key.
pub open spec fn has_pubkey(vals: Seq<ValidatorView>, pk: Seq<u8>) -> bool {
    exists|i: int| 0 <= i < vals.len() && (#[trigger] vals[i]).pubkey == pk
}

/// Only one index can be the first with a key.
pub proof fn lemma_first_pubkey_unique(vals: Seq<ValidatorView>, pk: Seq<u8>, i: int, j: int)
    requires
        is_first_with_pubkey(vals, pk, i),
        is_first_with_pubkey(vals, pk, j),
    ensures
        i == j,
{
}

/// A fresh record created by a first deposit: the deposited amount quantized
/// down to the effective-balance step, capped at the maximum, every lifecycle
/// epoch unset.
pub open spec fn fresh_validator(pk: Seq<u8>, wc: Seq<u8>, amount: u64, spec: ChainSpec) -> ValidatorView {
    let quantized = amount - (amount as int % spec.effective_balance_increment as int);
    ValidatorView {
        pubkey: pk,
        withdrawal_credentials: wc,
        effective_balance: if quantized > spec.max_effective_balance {
            spec.max_effective_balance
        } else {
            quantized as u64
        },
        slashed: false,
        activation_eligibility_epoch: FAR_FUTURE_EPOCH,
        activation_epoch: FAR_FUTURE_EPOCH,
        exit_epoch: FAR_FUTURE_EPOCH,
        withdrawable_epoch: FAR_FUTURE_EPOCH,
    }
}

/// One deposit applied to the state: its Merkle proof must tie its data to
/// the canonical deposit root at the next deposit index; a repeat key tops up
/// a balance, a new key with a valid proof of possession creates exactly one
/// validator, and a new key without one consumes the deposit and creates
/// nothing.
pub open spec fn deposit_step(s: StateModel, d: Deposit, spec: ChainSpec) -> Result<
    StateModel,
    BlockProcessingError,
> {
    if !(s.eth1_deposit_index < s.eth1_data.deposit_count) {
        Err(BlockProcessingError::DepositCountExhausted)
    } else if !(d.proof@.len() == spec.deposit_contract_tree_depth && (s.eth1_deposit_index as nat)
        < vstd::arithmetic::power2::pow2(spec.deposit_contract_tree_depth as nat)
        && crate::merkle::root_from_branch_spec(
        deposit_data_root(d.data.pubkey@, d.data.withdrawal_credentials@, d.data.amount),
        d.proof.deep_view(),
        s.eth1_deposit_index as nat,
    ) == s.eth1_data.deposit_root) {
        Err(BlockProcessingError::DepositBadProof)
    } else {
        let s1 = StateModel { eth1_deposit_index: (s.eth1_deposit_index + 1) as u64, ..s };
        if has_pubkey(s1.validators, d.data.pubkey@) {
            let i = first_with_pubkey(s1.validators, d.data.pubkey@);
            if s1.balances[i] + d.data.amount <= u64::MAX {
                Ok(
                    StateModel {
                        balances: s1.balances.update(i, (s1.balances[i] + d.data.amount) as u64),
                        ..s1
                    },
                )
            } else {
                Err(BlockProcessingError::ArithmeticOverflow)
            }
        } else if !d.data.signature_ok {
            // An unprovable claim on a new key consumes the deposit silently.
            Ok(s1)
        } else if s1.validators.len() < vstd::arithmetic::power2::pow2(
            crate::registry::REGISTRY_TREE_DEPTH as nat,
        ) && s1.validators.len() < usize::MAX {
            Ok(
                StateModel {
                    validators: s1.validators.push(
                        fresh_validator(
                            d.data.pubkey@,
                            d.data.withdrawal_credentials@,
                            d.data.amount,
                            spec,
                        ),
                    ),
                    balances: s1.balances.push(d.data.amount),
                    ..s1
                },
            )
        } else {
            Err(BlockProcessingError::RegistryFull)
        }
    }
}

/// A list of deposits applied in order.
pub open spec fn deposits_fold(s: StateModel, list: Seq<Deposit>, spec: ChainSpec) -> Result<
    StateModel,
    BlockProcessingError,
>
    decreases list.len(),
{
    if list.len() == 0 {
        Ok(s)
    } else {
        match deposit_step(s, list[0], spec) {
            Err(e) => Err(e),
            Ok(m) => deposits_fold(m, list.skip(1), spec),
        }
    }
}

/// Verify each deposit's Merkle proof against the canonical deposit root and
/// credit or create the claimed validator.
pub fn process_deposits(state: &mut BeaconState, deposits: &Vec<Deposit>, spec: &ChainSpec) -> (res:
    Result<(), BlockProcessingError>)
    requires
        spec.wf(),
        old(state).wf(*spec),
    ensures
        final(state).wf(*spec),
        res matches Ok(()) ==> deposits_fold(old(state)@, deposits@, *spec) == Ok::<
            StateModel,
            BlockProcessingError,
        >(final(state)@),
        res matches Err(e) ==> deposits_fold(old(state)@, deposits@, *spec) == Err::<
            StateModel,
            BlockProcessingError,
        >(e),
        final(state).slot == old(state).slot,
{
    let n = deposits.len();
    proof {
        assert(deposits@.skip(0) =~= deposits@);
    }
    let mut i: usize = 0;
    while i < n
        invariant
            spec.wf(),
            state.wf(*spec),
            state.slot == old(state).slot,
            i <= n,
            n == deposits@.len(),
            deposits_fold(old(state)@, deposits@, *spec) == deposits_fold(
                state@,
                deposits@.skip(i as int),
                *spec,
            ),
        decreases n - i,
    {
        let ghost pre = state@;
        let ghost rest = deposits@.skip(i as int);
        proof {
            assert(rest[0] == deposits@[i as int]);
            assert(rest.skip(1) =~= deposits@.skip(i as int + 1));
        }
        let deposit = &deposits[i];
        if !(state.eth1_deposit_index < state.eth1_data.deposit_count) {
            return Err(BlockProcessingError::DepositCountExhausted);
        }
        proof {
            vstd::bits::lemma_u64_pow2_no_overflow(spec.deposit_contract_tree_depth as nat);
            vstd::bits::lemma_u64_shl_is_mul(1u64, spec.deposit_contract_tree_depth);
        }
        let depth = spec.deposit_contract_tree_depth;
        let within = state.eth1_deposit_index < (1u64 << depth);
        let len_ok = deposit.proof.len() as u64 == depth;
        let leaf = compute_deposit_data_root(&deposit.data);
        let root = clone_bytes(&state.eth1_data.deposit_root);
        let branch = deposit.proof.as_slice();
        proof {
            assert(branch.deep_view() =~~= deposit.proof.deep_view());
        }
        let proof_ok = if within && len_ok {
            crate::merkle::verify_merkle_proof(
                leaf,
                branch,
                depth as usize,
                state.eth1_deposit_index,
                root,
            )
        } else {
            false
        };
        if !proof_ok {
            return Err(BlockProcessingError::DepositBadProof);
        }
        let ghost pre_state = *state;
        state.eth1_deposit_index = state.eth1_deposit_index + 1;
        let ghost s1 = state@;
        proof {
            assert(s1 =~~= (StateModel {
                eth1_deposit_index: (pre.eth1_deposit_index + 1) as u64,
                ..pre
            }));
            lemma_wf_same_shape(pre_state, *state, *spec);
        }
        // Look for an existing record with this key.
        let vcount = state.validators.len();
        let mut found: Option<usize> = None;
        let mut k: usize = 0;
        while k < vcount
            invariant
                state.validators.well_formed(),
                k <= vcount,
                vcount == state@.validators.len(),
                found is None ==> forall|j: int|
                    0 <= j < k ==> (#[trigger] state@.validators[j]).pubkey
                        != deposit.data.pubkey@,
                found matches Some(f) ==> is_first_with_pubkey(
                    state@.validators,
                    deposit.data.pubkey@,
                    f as int,
                ),
            decreases vcount - k,
        {
            if found.is_none() {
                match state.validators.get(k) {
                    Some(v) => {
                        if bytes_eq(&v.pubkey, &deposit.data.pubkey) {
                            found = Some(k);
                        }
                    }
                    None => {
                        proof {
                            assert(false);
                        }
                    }
                }
            }
            k = k + 1;
        }
        match found {
            Some(existing) => {
                proof {
                    assert(has_pubkey(state@.validators, deposit.data.pubkey@));
                    let w = choose|j: int|
                        is_first_with_pubkey(state@.validators, deposit.data.pubkey@, j);
                    lemma_first_pubkey_unique(
                        state@.validators,
                        deposit.data.pubkey@,
                        w,
                        existing as int,
                    );
                    assert(first_with_pubkey(state@.validators, deposit.data.pubkey@)
                        == existing as int);
                }
                match increase_balance(state, existing, deposit.data.amount, spec) {
                    Ok(()) => {}
                    Err(e) => {
                        return Err(e);
                    }
                }
            }
            None => {
                proof {
                    assert(!has_pubkey(state@.validators, deposit.data.pubkey@));
                }
                if deposit.data.signature_ok {
                    proof {
                        assert(deposit.data.amount % spec.effective_balance_increment
                            <= deposit.data.amount) by (nonlinear_arith)
                            requires
                                spec.effective_balance_increment >= 1,
                        ;
                    }
                    let quantized = deposit.data.amount - (deposit.data.amount
                        % spec.effective_balance_increment);
                    let eff = if quantized > spec.max_effective_balance {
                        spec.max_effective_balance
                    } else {
                        quantized
                    };
                    let new_v = Validator {
                        pubkey: clone_bytes(&deposit.data.pubkey),
                        withdrawal_credentials: clone_bytes(&deposit.data.withdrawal_credentials),
                        effective_balance: eff,
                        slashed: false,
                        activation_eligibility_epoch: FAR_FUTURE_EPOCH,
                        activation_epoch: FAR_FUTURE_EPOCH,
                        exit_epoch: FAR_FUTURE_EPOCH,
                        withdrawable_epoch: FAR_FUTURE_EPOCH,
                    };
                    proof {
                        assert(new_v@ =~= fresh_validator(
                            deposit.data.pubkey@,
                            deposit.data.withdrawal_credentials@,
                            deposit.data.amount,
                            *spec,
                        ));
                    }
                    match state.validators.push(new_v) {
                        Ok(()) => {
                            state.balances.push(deposit.data.amount);
                            proof {
                                assert(state@ =~~= (StateModel {
                                    validators: s1.validators.push(
                                        fresh_validator(
                                            deposit.data.pubkey@,
                                            deposit.data.withdrawal_credentials@,
                                            deposit.data.amount,
                                            *spec,
                                        ),
                                    ),
                                    balances: s1.balances.push(deposit.data.amount),
                                    ..s1
                                }));
                            }
                        }
                        Err(_) => {
                            return Err(BlockProcessingError::RegistryFull);
                        }
                    }
                }
            }
        }
        i = i + 1;
        proof {
            assert(deposit_step(pre, rest[0], *spec) == Ok::<StateModel, BlockProcessingError>(
                state@,
            ));
            assert(deposits_fold(old(state)@, deposits@, *spec) == deposits_fold(
                state@,
                deposits@.skip(i as int),
                *spec,
            ));
        }
    }
    proof {
        assert(deposits@.skip(n as int) =~= Seq::<Deposit>::empty());
    }
    Ok(())
}

/// The first rule a transfer breaks, if any.
pub open spec fn transfer_check(s: StateModel, t: Transfer, spec: ChainSpec) -> Option<
    BlockProcessingError,
> {
    let cur = epoch_of(s.slot, spec);
    if !((t.sender as int) < s.validators.len() && (t.recipient as int) < s.validators.len()) {
        Some(BlockProcessingError::TransferUnknownValidator)
    } else if t.slot != s.slot {
        Some(BlockProcessingError::TransferBadSlot)
    } else if s.balances[t.sender as int] < t.amount + t.fee {
        Some(BlockProcessingError::TransferInsufficientBalance)
    } else if !(cur >= s.validators[t.sender as int].withdrawable_epoch || s.validators[
        t.sender as int].activation_eligibility_epoch == FAR_FUTURE_EPOCH) {
        Some(BlockProcessingError::TransferNotWithdrawable)
    } else if !t.signature_ok {
        Some(BlockProcessingError::TransferSignatureInvalid)
    } else {
        None
    }
}

/// One transfer applied to the state: the sender is charged amount and fee,
/// the recipient credited the amount, and the proposer credited the fee.
pub open spec fn transfer_step(s: StateModel, t: Transfer, spec: ChainSpec) -> Result<
    StateModel,
    BlockProcessingError,
> {
    match transfer_check(s, t, spec) {
        Some(e) => Err(e),
        None => match the_proposer(s.validators, epoch_of(s.slot, spec), s.slot) {
            None => Err(BlockProcessingError::NoProposer),
            Some(p) => {
                let charged = s.balances.update(
                    t.sender as int,
                    (s.balances[t.sender as int] - t.amount - t.fee) as u64,
                );
                if charged[t.recipient as int] + t.amount > u64::MAX {
                    Err(BlockProcessingError::ArithmeticOverflow)
                } else {
                    let credited = charged.update(
                        t.recipient as int,
                        (charged[t.recipient as int] + t.amount) as u64,
                    );
                    if credited[p] + t.fee > u64::MAX {
                        Err(BlockProcessingError::ArithmeticOverflow)
                    } else {
                        Ok(
                            StateModel {
                                balances: credited.update(p, (credited[p] + t.fee) as u64),
                                ..s
                            },
                        )
                    }
                }
            }
        },
    }
}

/// A list of transfers applied in order.
pub open spec fn transfers_fold(s: StateModel, list: Seq<Transfer>, spec: ChainSpec) -> Result<
    StateModel,
    BlockProcessingError,
>
    decreases list.len(),
{
    if list.len() == 0 {
        Ok(s)
    } else {
        match transfer_step(s, list[0], spec) {
            Err(e) => Err(e),
            Ok(m) => transfers_fold(m, list.skip(1), spec),
        }
    }
}

/// Move value between validator-owned balances, fee to the proposer; the
/// sender must cover amount plus fee and be withdrawable or never activated.
pub fn process_transfers(state: &mut BeaconState, transfers: &Vec<Transfer>, spec: &ChainSpec) -> (res:
    Result<(), BlockProcessingError>)
    requires
        spec.wf(),
        old(state).wf(*spec),
    ensures
        final(state).wf(*spec),
        res matches Ok(()) ==> transfers_fold(old(state)@, transfers@, *spec) == Ok::<
            StateModel,
            BlockProcessingError,
        >(final(state)@),
        res matches Err(e) ==> transfers_fold(old(state)@, transfers@, *spec) == Err::<
            StateModel,
            BlockProcessingError,
        >(e),
        final(state).slot == old(state).slot,
{
    let n = transfers.len();
    proof {
        assert(transfers@.skip(0) =~= transfers@);
    }
    let mut i: usize = 0;
    while i < n
        invariant
            spec.wf(),
            state.wf(*spec),
            state.slot == old(state).slot,
            i <= n,
            n == transfers@.len(),
            transfers_fold(old(state)@, transfers@, *spec) == transfers_fold(
                state@,
                transfers@.skip(i as int),
                *spec,
            ),
        decreases n - i,
    {
        let ghost pre = state@;
        let ghost rest = transfers@.skip(i as int);
        proof {
            assert(rest[0] == transfers@[i as int]);
            assert(rest.skip(1) =~= transfers@.skip(i as int + 1));
        }
        let t = &transfers[i];
        let vcount = state.validators.len() as u64;
        if !(t.sender < vcount && t.recipient < vcount) {
            return Err(BlockProcessingError::TransferUnknownValidator);
        }
        let sender = t.sender as usize;
        let recipient = t.recipient as usize;
        if t.slot != state.slot {
            return Err(BlockProcessingError::TransferBadSlot);
        }
        let total = match t.amount.checked_add(t.fee) {
            Some(x) => x,
            None => {
                // A charge beyond the balance type can never be covered.
                return Err(BlockProcessingError::TransferInsufficientBalance);
            }
        };
        if state.balances[sender] < total {
            return Err(BlockProcessingError::TransferInsufficientBalance);
        }
        let cur = state.current_epoch(spec);
        let withdrawable = match state.validators.get(sender) {
            Some(v) => cur >= v.withdrawable_epoch || v.activation_eligibility_epoch
                == FAR_FUTURE_EPOCH,
            None => {
                proof {
                    assert(false);
                }
                false
            }
        };
        if !withdrawable {
            return Err(BlockProcessingError::TransferNotWithdrawable);
        }
        if !t.signature_ok {
            return Err(BlockProcessingError::TransferSignatureInvalid);
        }
        let proposer = match state.get_beacon_proposer_index(spec) {
            Some(p) => p,
            None => {
                return Err(BlockProcessingError::NoProposer);
            }
        };
        proof {
            let epoch = epoch_of(pre.slot, *spec);
            assert(is_proposer(pre.validators, epoch, pre.slot, proposer as int));
            let w = choose|j: int| is_proposer(pre.validators, epoch, pre.slot, j);
            lemma_proposer_unique(pre.validators, epoch, pre.slot, w, proposer as int);
            assert(the_proposer(pre.validators, epoch, pre.slot) == Some(proposer as int));
        }
        let ghost pre_state = *state;
        let charged = state.balances[sender] - total;
        set_u64(&mut state.balances, sender, charged);
        let ghost sc = state@;
        proof {
            assert(sc =~~= (StateModel {
                balances: pre.balances.update(
                    sender as int,
                    (pre.balances[sender as int] - t.amount - t.fee) as u64,
                ),
                ..pre
            }));
            lemma_wf_same_shape(pre_state, *state, *spec);
        }
        match increase_balance(state, recipient, t.amount, spec) {
            Ok(()) => {}
            Err(e) => {
                return Err(e);
            }
        }
        let ghost scr = state@;
        match increase_balance(state, proposer, t.fee, spec) {
            Ok(()) => {}
            Err(e) => {
                return Err(e);
            }
        }
        i = i + 1;
        proof {
            assert(state@ =~~= (StateModel {
                balances: scr.balances.update(
                    proposer as int,
                    (scr.balances[proposer as int] + t.fee) as u64,
                ),
                ..scr
            }));
            assert(transfer_step(pre, rest[0], *spec) == Ok::<StateModel, BlockProcessingError>(
                state@,
            ));
            assert(transfers_fold(old(state)@, transfers@, *spec) == transfers_fold(
                state@,
                transfers@.skip(i as int),
                *spec,
            ));
        }
    }
    proof {
        assert(transfers@.skip(n as int) =~= Seq::<Transfer>::empty());
    }
    Ok(())
}

} // verus!

verus! {

/// Whether `x` occurs in `s`.
pub open spec fn in_seq(x: u64, s: Seq<u64>) -> bool {
    exists|k: int| 0 <= k < s.len() && s[k] == x
}

/// Two votes conflict when they differ and either name the same target epoch
/// (a double vote) or one surrounds the other.
pub open spec fn is_slashable_pair(d1: AttestationDataView, d2: AttestationDataView) -> bool {
    &&& d1 != d2
    &&& (d1.target.epoch == d2.target.epoch || (d1.source.epoch < d2.source.epoch
        && d2.target.epoch < d1.target.epoch))
}

/// An indexed attestation usable as slashing evidence: a verified aggregate
/// over known validator indices.
pub open spec fn is_valid_indexed(s: StateModel, a: IndexedAttestation) -> bool {
    &&& a.signature_ok
    &&& forall|k: int|
        0 <= k < a.attesting_indices@.len() ==> (#[trigger] a.attesting_indices@[k] as int)
            < s.validators.len()
}

/// Walk the first evidence's indices: each one that also occurs in the second
/// evidence and is still slashable is slashed; the count of validators
/// slashed rides along.
pub open spec fn attester_slash_fold(
    s: StateModel,
    ids1: Seq<u64>,
    ids2: Seq<u64>,
    cur: u64,
    spec: ChainSpec,
) -> Result<(StateModel, int), BlockProcessingError>
    decreases ids1.len(),
{
    if ids1.len() == 0 {
        Ok((s, 0))
    } else {
        let idx = ids1[0];
        if in_seq(idx, ids2) && (idx as int) < s.validators.len() && is_slashable(
            s.validators[idx as int],
            cur,
        ) {
            match slash_step(s, idx as int, spec) {
                Err(e) => Err(e),
                Ok(m) => match attester_slash_fold(m, ids1.skip(1), ids2, cur, spec) {
                    Err(e) => Err(e),
                    Ok(p) => Ok((p.0, p.1 + 1)),
                },
            }
        } else {
            attester_slash_fold(s, ids1.skip(1), ids2, cur, spec)
        }
    }
}

/// One attester-slashing record applied to the state: the two votes must
/// conflict, both aggregates must verify, and at least one offender must
/// actually be slashed.
pub open spec fn attester_slashing_step(
    s: StateModel,
    op: AttesterSlashing,
    spec: ChainSpec,
) -> Result<StateModel, BlockProcessingError> {
    let cur = epoch_of(s.slot, spec);
    if !is_slashable_pair(op.attestation_1.data@, op.attestation_2.data@) {
        Err(BlockProcessingError::AttesterSlashingNotConflicting)
    } else if !(is_valid_indexed(s, op.attestation_1) && is_valid_indexed(s, op.attestation_2)) {
        Err(BlockProcessingError::AttesterSlashingInvalidAttestation)
    } else {
        match attester_slash_fold(
            s,
            op.attestation_1.attesting_indices@,
            op.attestation_2.attesting_indices@,
            cur,
            spec,
        ) {
            Err(e) => Err(e),
            Ok(p) => if p.1 == 0 {
                Err(BlockProcessingError::AttesterSlashingNoneSlashed)
            } else {
                Ok(p.0)
            },
        }
    }
}

/// A list of attester-slashing records applied in order.
pub open spec fn attester_slashings_fold(
    s: StateModel,
    list: Seq<AttesterSlashing>,
    spec: ChainSpec,
) -> Result<StateModel, BlockProcessingError>
    decreases list.len(),
{
    if list.len() == 0 {
        Ok(s)
    } else {
        match attester_slashing_step(s, list[0], spec) {
            Err(e) => Err(e),
            Ok(m) => attester_slashings_fold(m, list.skip(1), spec),
        }
    }
}

/// Whether `x` occurs in `ids`, as a value.
fn contains_index(ids: &Vec<u64>, x: u64) -> (r: bool)
    ensures
        r == in_seq(x, ids@),
{
    let mut k: usize = 0;
    while k < ids.len()
        invariant
            k <= ids@.len(),
            forall|j: int| 0 <= j < k ==> ids@[j] != x,
        decreases ids@.len() - k,
    {
        if ids[k] == x {
            return true;
        }
        k = k + 1;
    }
    false
}

/// Check one indexed attestation's usability, as a value.
fn check_indexed(state: &BeaconState, a: &IndexedAttestation) -> (r: bool)
    ensures
        r == is_valid_indexed(state@, *a),
{
    if !a.signature_ok {
        return false;
    }
    let n = state.validators.len() as u64;
    let mut k: usize = 0;
    while k < a.attesting_indices.len()
        invariant
            k <= a.attesting_indices@.len(),
            n == state@.validators.len(),
            forall|j: int|
                0 <= j < k ==> (#[trigger] a.attesting_indices@[j] as int)
                    < state@.validators.len(),
        decreases a.attesting_indices@.len() - k,
    {
        if !(a.attesting_indices[k] < n) {
            return false;
        }
        k = k + 1;
    }
    true
}

/// Verify each pair of conflicting votes and slash every offender both name;
/// a record that slashes nobody rejects the block.
#[verifier::rlimit(100)]
pub fn process_attester_slashings(
    state: &mut BeaconState,
    attester_slashings: &Vec<AttesterSlashing>,
    spec: &ChainSpec,
) -> (res: Result<(), BlockProcessingError>)
    requires
        spec.wf(),
        old(state).wf(*spec),
    ensures
        final(state).wf(*spec),
        res matches Ok(()) ==> attester_slashings_fold(old(state)@, attester_slashings@, *spec)
            == Ok::<StateModel, BlockProcessingError>(final(state)@),
        res matches Err(e) ==> attester_slashings_fold(old(state)@, attester_slashings@, *spec)
            == Err::<StateModel, BlockProcessingError>(e),
        final(state).slot == old(state).slot,
{
    let n = attester_slashings.len();
    proof {
        assert(attester_slashings@.skip(0) =~= attester_slashings@);
    }
    let mut i: usize = 0;
    while i < n
        invariant
            spec.wf(),
            state.wf(*spec),
            state.slot == old(state).slot,
            i <= n,
            n == attester_slashings@.len(),
            attester_slashings_fold(old(state)@, attester_slashings@, *spec)
                == attester_slashings_fold(state@, attester_slashings@.skip(i as int), *spec),
        decreases n - i,
    {
        let ghost pre = state@;
        let ghost rest = attester_slashings@.skip(i as int);
        proof {
            assert(rest[0] == attester_slashings@[i as int]);
            assert(rest.skip(1) =~= attester_slashings@.skip(i as int + 1));
        }
        let op = &attester_slashings[i];
        let d1 = &op.attestation_1.data;
        let d2 = &op.attestation_2.data;
        let conflicting = !d1.equals(d2) && (d1.target.epoch == d2.target.epoch || (
        d1.source.epoch < d2.source.epoch && d2.target.epoch < d1.target.epoch));
        if !conflicting {
            return Err(BlockProcessingError::AttesterSlashingNotConflicting);
        }
        if !(check_indexed(state, &op.attestation_1) && check_indexed(state, &op.attestation_2)) {
            return Err(BlockProcessingError::AttesterSlashingInvalidAttestation);
        }
        let cur = state.current_epoch(spec);
        let ids1 = &op.attestation_1.attesting_indices;
        let ids2 = &op.attestation_2.attesting_indices;
        let m = ids1.len();
        let mut slashed_any: u64 = 0;
        let mut k: usize = 0;
        proof {
            assert(ids1@.skip(0) =~= ids1@);
        }
        while k < m
            invariant
                spec.wf(),
                state.wf(*spec),
                k <= m,
                m == ids1@.len(),
                slashed_any <= k,
                cur == epoch_of(pre.slot, *spec),
                state@.slot == pre.slot,
                state.slot == old(state).slot,
                i < attester_slashings@.len(),
                *op == attester_slashings@[i as int],
                ids1@ == op.attestation_1.attesting_indices@,
                ids2@ == op.attestation_2.attesting_indices@,
                is_slashable_pair(op.attestation_1.data@, op.attestation_2.data@),
                is_valid_indexed(pre, op.attestation_1),
                is_valid_indexed(pre, op.attestation_2),
                attester_slashings_fold(old(state)@, attester_slashings@, *spec)
                    == attester_slashings_fold(
                    pre,
                    attester_slashings@.skip(i as int),
                    *spec,
                ),
                ({
                    let whole = attester_slash_fold(pre, ids1@, ids2@, cur, *spec);
                    let remaining = attester_slash_fold(
                        state@,
                        ids1@.skip(k as int),
                        ids2@,
                        cur,
                        *spec,
                    );
                    match remaining {
                        Ok(p) => whole == Ok::<(StateModel, int), BlockProcessingError>(
                            (p.0, p.1 + slashed_any as int),
                        ),
                        Err(e) => whole == Err::<(StateModel, int), BlockProcessingError>(e),
                    }
                }),
            decreases m - k,
        {
            let ghost loop_pre = state@;
            let ghost loop_rest = ids1@.skip(k as int);
            proof {
                assert(loop_rest[0] == ids1@[k as int]);
                assert(loop_rest.skip(1) =~= ids1@.skip(k as int + 1));
                assert(attester_slashings@.skip(i as int)[0] == attester_slashings@[i as int]);
            }
            let idx_u64 = ids1[k];
            let hit = contains_index(ids2, idx_u64) && idx_u64 < state.validators.len() as u64;
            let slashable = if hit {
                match state.validators.get(idx_u64 as usize) {
                    Some(v) => v.is_slashable_at(cur),
                    None => {
                        proof {
                            assert(false);
                        }
                        false
                    }
                }
            } else {
                false
            };
            if slashable {
                proof {
                    assert(in_seq(idx_u64, ids2@));
                    assert((idx_u64 as int) < loop_pre.validators.len());
                    assert(is_slashable(loop_pre.validators[idx_u64 as int], cur));
                }
                let proposer = match state.get_beacon_proposer_index(spec) {
                    Some(p) => p,
                    None => {
                        proof {
                            let goal = BlockProcessingError::NoProposer;
                            assert(slash_step(loop_pre, idx_u64 as int, *spec) == Err::<
                                StateModel,
                                BlockProcessingError,
                            >(goal));
                            assert(attester_slash_fold(loop_pre, loop_rest, ids2@, cur, *spec)
                                == Err::<(StateModel, int), BlockProcessingError>(goal));
                            assert(attester_slash_fold(pre, ids1@, ids2@, cur, *spec) == Err::<
                                (StateModel, int),
                                BlockProcessingError,
                            >(goal));
                            assert(attester_slashing_step(
                                pre,
                                attester_slashings@.skip(i as int)[0],
                                *spec,
                            ) == Err::<StateModel, BlockProcessingError>(goal));
                        }
                        return Err(BlockProcessingError::NoProposer);
                    }
                };
                proof {
                    let epoch = epoch_of(loop_pre.slot, *spec);
                    assert(is_proposer(loop_pre.validators, epoch, loop_pre.slot, proposer as int));
                    let w = choose|j: int|
                        is_proposer(loop_pre.validators, epoch, loop_pre.slot, j);
                    lemma_proposer_unique(
                        loop_pre.validators,
                        epoch,
                        loop_pre.slot,
                        w,
                        proposer as int,
                    );
                    assert(the_proposer(loop_pre.validators, epoch, loop_pre.slot) == Some(
                        proposer as int,
                    ));
                }
                match slash_validator(state, idx_u64 as usize, proposer, spec) {
                    Ok(()) => {}
                    Err(e) => {
                        proof {
                            assert(slash_step(loop_pre, idx_u64 as int, *spec) == Err::<
                                StateModel,
                                BlockProcessingError,
                            >(e));
                            assert(attester_slash_fold(loop_pre, loop_rest, ids2@, cur, *spec)
                                == Err::<(StateModel, int), BlockProcessingError>(e));
                            assert(attester_slash_fold(pre, ids1@, ids2@, cur, *spec) == Err::<
                                (StateModel, int),
                                BlockProcessingError,
                            >(e));
                            assert(attester_slashing_step(
                                pre,
                                attester_slashings@.skip(i as int)[0],
                                *spec,
                            ) == Err::<StateModel, BlockProcessingError>(e));
                        }
                        return Err(e);
                    }
                }
                slashed_any = slashed_any + 1;
            }
            k = k + 1;
        }
        proof {
            assert(ids1@.skip(m as int) =~= Seq::<u64>::empty());
        }
        if slashed_any == 0 {
            return Err(BlockProcessingError::AttesterSlashingNoneSlashed);
        }
        i = i + 1;
        proof {
            assert(attester_slashing_step(pre, rest[0], *spec) == Ok::<
                StateModel,
                BlockProcessingError,
            >(state@));
            assert(attester_slashings_fold(old(state)@, attester_slashings@, *spec)
                == attester_slashings_fold(state@, attester_slashings@.skip(i as int), *spec));
        }
    }
    proof {
        assert(attester_slashings@.skip(n as int) =~= Seq::<AttesterSlashing>::empty());
    }
    Ok(())
}

} // verus!
