//! The epoch accounting engine.
//!
//! Runs exactly once per epoch boundary, before the first block of the new
//! epoch: participation statuses and total balances, justification and
//! finalization, rewards and penalties, slashing settlement, and registry
//! churn, in that order; at the end the pending-attestation accumulators
//! rotate.

use vstd::prelude::*;
use crate::hashing::{Hash256, clone_bytes};
use crate::config::ChainSpec;
use crate::errors::BlockProcessingError;
use crate::state::{
    BeaconState, StateModel, epoch_of, previous_epoch_of, attested, count_active, sum_attesting,
    sum_effective, lemma_sum_effective_prefix, lemma_sum_attesting_prefix, lemma_wf_same_shape,
    clone_u64_vec, clone_pending_vec,
};
use crate::block_processing::{
    saturating_sub, set_bool, initiate_exit_outcome, initiate_validator_exit, with_exit,
};
use crate::types::{Checkpoint, CheckpointView, PendingAttestation, PendingAttestationView};
use crate::validator::{Validator, ValidatorView, FAR_FUTURE_EPOCH, is_active};

verus! {

broadcast use crate::hashing::lemma_bytes_deep_view, crate::hashing::lemma_deep_view_len;

/// Justification and finalization, over balances already summed. The bitfield
/// shifts one epoch; a supermajority for the prior or the current epoch
/// justifies its checkpoint; the finalization rules then inspect the bit
/// patterns. A supermajority is an attesting balance strictly above two
/// thirds of the total active balance.
pub open spec fn justification_update(
    s: StateModel,
    total: u64,
    prev_bal: u64,
    cur_bal: u64,
    prev_root: Seq<u8>,
    cur_root: Seq<u8>,
    spec: ChainSpec,
) -> StateModel {
    let cur = epoch_of(s.slot, spec);
    if cur <= 1 {
        s
    } else {
        let prev = (cur - 1) as u64;
        let old_prev_j = s.previous_justified_checkpoint;
        let old_cur_j = s.current_justified_checkpoint;
        let bits0 = seq![
            false,
            s.justification_bits[0],
            s.justification_bits[1],
            s.justification_bits[2],
        ];
        let cj1 = if prev_bal * 3 > total * 2 {
            CheckpointView { epoch: prev, root: prev_root }
        } else {
            old_cur_j
        };
        let bits1 = if prev_bal * 3 > total * 2 {
            bits0.update(1, true)
        } else {
            bits0
        };
        let cj2 = if cur_bal * 3 > total * 2 {
            CheckpointView { epoch: cur, root: cur_root }
        } else {
            cj1
        };
        let bits2 = if cur_bal * 3 > total * 2 {
            bits1.update(0, true)
        } else {
            bits1
        };
        let fin1 = if bits2[1] && bits2[2] && bits2[3] && old_prev_j.epoch + 3 == cur {
            old_prev_j
        } else {
            s.finalized_checkpoint
        };
        let fin2 = if bits2[1] && bits2[2] && old_prev_j.epoch + 2 == cur {
            old_prev_j
        } else {
            fin1
        };
        let fin3 = if bits2[0] && bits2[1] && bits2[2] && old_cur_j.epoch + 2 == cur {
            old_cur_j
        } else {
            fin2
        };
        let fin4 = if bits2[0] && bits2[1] && old_cur_j.epoch + 1 == cur {
            old_cur_j
        } else {
            fin3
        };
        StateModel {
            previous_justified_checkpoint: old_cur_j,
            current_justified_checkpoint: cj2,
            justification_bits: bits2,
            finalized_checkpoint: fin4,
            ..s
        }
    }
}

/// Law: when the current epoch has no supermajority of its own, justification
/// advances to the prior epoch's checkpoint exactly when that epoch's
/// attesting balance strictly exceeds two thirds of the total active balance;
/// at exactly two thirds, or below, the justified checkpoint is unchanged.
pub proof fn lemma_justification_threshold(
    s: StateModel,
    total: u64,
    prev_bal: u64,
    cur_bal: u64,
    prev_root: Seq<u8>,
    cur_root: Seq<u8>,
    spec: ChainSpec,
)
    requires
        epoch_of(s.slot, spec) >= 2,
        cur_bal * 3 <= total * 2,
    ensures
        prev_bal * 3 > total * 2 ==> justification_update(
            s,
            total,
            prev_bal,
            cur_bal,
            prev_root,
            cur_root,
            spec,
        ).current_justified_checkpoint == (CheckpointView {
            epoch: (epoch_of(s.slot, spec) - 1) as u64,
            root: prev_root,
        }),
        prev_bal * 3 <= total * 2 ==> justification_update(
            s,
            total,
            prev_bal,
            cur_bal,
            prev_root,
            cur_root,
            spec,
        ).current_justified_checkpoint == s.current_justified_checkpoint,
{
}

impl BeaconState {
    /// Apply justification and finalization in place.
    fn apply_justification(
        &mut self,
        total: u64,
        prev_bal: u64,
        cur_bal: u64,
        prev_root: Hash256,
        cur_root: Hash256,
        spec: &ChainSpec,
    )
        requires
            spec.wf(),
            old(self).wf(*spec),
        ensures
            final(self).wf(*spec),
            final(self)@ == justification_update(
                old(self)@,
                total,
                prev_bal,
                cur_bal,
                prev_root@,
                cur_root@,
                *spec,
            ),
            final(self).validators == old(self).validators,
            final(self).slot == old(self).slot,
    {
        let ghost pre = self@;
        let ghost pre_state = *self;
        let cur = self.current_epoch(spec);
        if cur <= 1 {
            return ;
        }
        let prev = cur - 1;
        let old_prev_j = self.previous_justified_checkpoint.duplicate();
        let old_cur_j = self.current_justified_checkpoint.duplicate();
        let prev_super = (prev_bal as u128) * 3 > (total as u128) * 2;
        let cur_super = (cur_bal as u128) * 3 > (total as u128) * 2;
        let mut bits: Vec<bool> = Vec::new();
        bits.push(false);
        bits.push(self.justification_bits[0]);
        bits.push(self.justification_bits[1]);
        bits.push(self.justification_bits[2]);
        if prev_super {
            set_bool(&mut bits, 1, true);
            self.current_justified_checkpoint = Checkpoint { epoch: prev, root: prev_root };
        }
        if cur_super {
            set_bool(&mut bits, 0, true);
            self.current_justified_checkpoint = Checkpoint { epoch: cur, root: cur_root };
        }
        self.previous_justified_checkpoint = old_cur_j.duplicate();
        let b0 = bits[0];
        let b1 = bits[1];
        let b2 = bits[2];
        let b3 = bits[3];
        if b1 && b2 && b3 && (old_prev_j.epoch as u128) + 3 == cur as u128 {
            self.finalized_checkpoint = old_prev_j.duplicate();
        }
        if b1 && b2 && (old_prev_j.epoch as u128) + 2 == cur as u128 {
            self.finalized_checkpoint = old_prev_j.duplicate();
        }
        if b0 && b1 && b2 && (old_cur_j.epoch as u128) + 2 == cur as u128 {
            self.finalized_checkpoint = old_cur_j.duplicate();
        }
        if b0 && b1 && (old_cur_j.epoch as u128) + 1 == cur as u128 {
            self.finalized_checkpoint = old_cur_j.duplicate();
        }
        self.justification_bits = bits;
        proof {
            assert(final(self)@ =~~= justification_update(
                pre,
                total,
                prev_bal,
                cur_bal,
                prev_root@,
                cur_root@,
                *spec,
            ));
            lemma_wf_same_shape(pre_state, *self, *spec);
        }
    }
}

} // verus!

verus! {

/// The extra charge on a non-attesting validator while finality is delayed,
/// capped at the balance type.
pub open spec fn inactivity_penalty(v: ValidatorView, finality_delay: u64, spec: ChainSpec) -> int {
    if finality_delay > spec.min_epochs_to_inactivity_penalty {
        let p = v.effective_balance * finality_delay / (spec.inactivity_penalty_quotient as int);
        if p > u64::MAX {
            u64::MAX as int
        } else {
            p
        }
    } else {
        0
    }
}

/// One validator's balance after the epoch's incentives: attesters gain the
/// base reward, active non-attesters lose it plus any inactivity charge,
/// floored at zero; inactive validators are untouched.
pub open spec fn adjusted_balance(
    m: StateModel,
    i: int,
    prev: u64,
    prev_root: Seq<u8>,
    finality_delay: u64,
    spec: ChainSpec,
) -> int {
    let v = m.validators[i];
    let bal = m.balances[i] as int;
    if !is_active(v, prev) {
        bal
    } else {
        let base = v.effective_balance / spec.base_reward_quotient;
        if attested(i, m.previous_epoch_attestations, prev, prev_root) {
            bal + base
        } else {
            let charged = bal - base - inactivity_penalty(v, finality_delay, spec);
            if charged >= 0 {
                charged
            } else {
                0
            }
        }
    }
}

/// Rewards and penalties over all balances; a reward that would leave the
/// balance type is reported, never wrapped.
pub open spec fn rewards_outcome(
    m: StateModel,
    prev: u64,
    prev_root: Seq<u8>,
    finality_delay: u64,
    spec: ChainSpec,
) -> Result<StateModel, BlockProcessingError> {
    if forall|i: int|
        0 <= i < m.balances.len() ==> #[trigger] adjusted_balance(
            m,
            i,
            prev,
            prev_root,
            finality_delay,
            spec,
        ) <= u64::MAX {
        Ok(
            StateModel {
                balances: Seq::new(
                    m.balances.len(),
                    |i: int| adjusted_balance(m, i, prev, prev_root, finality_delay, spec) as u64,
                ),
                ..m
            },
        )
    } else {
        Err(BlockProcessingError::ArithmeticOverflow)
    }
}

/// Total effective balance of the validators slashed but not yet
/// withdrawable.
pub open spec fn sum_slashed_pending(s: Seq<ValidatorView>, cur: u64) -> int
    decreases s.len(),
{
    if s.len() == 0 {
        0
    } else {
        sum_slashed_pending(s.drop_last(), cur) + if s.last().slashed && cur
            < s.last().withdrawable_epoch {
            s.last().effective_balance as int
        } else {
            0int
        }
    }
}

/// Slashed-pending sums are never negative.
pub proof fn lemma_sum_slashed_nonneg(s: Seq<ValidatorView>, cur: u64)
    ensures
        sum_slashed_pending(s, cur) >= 0,
    decreases s.len(),
{
    if s.len() > 0 {
        lemma_sum_slashed_nonneg(s.drop_last(), cur);
    }
}

/// One validator's balance after slashing settlement: halfway through its
/// slashing window, a slashed validator is charged in proportion to the total
/// slashed balance, floored at zero.
pub open spec fn settled_balance(
    m: StateModel,
    i: int,
    cur: u64,
    total_slashed: int,
    total: u64,
    spec: ChainSpec,
) -> u64 {
    let v = m.validators[i];
    if v.slashed && cur + spec.epochs_per_slashings_vector / 2 == v.withdrawable_epoch {
        let numerator = if 3 * total_slashed > total {
            total as int
        } else {
            3 * total_slashed
        };
        let penalty = if total > 0 {
            v.effective_balance * numerator / (total as int)
        } else {
            0int
        };
        if m.balances[i] >= penalty {
            (m.balances[i] - penalty) as u64
        } else {
            0
        }
    } else {
        m.balances[i]
    }
}

/// Slashing settlement over all balances.
pub open spec fn settlement_outcome(m: StateModel, cur: u64, total: u64, spec: ChainSpec) -> StateModel {
    StateModel {
        balances: Seq::new(
            m.balances.len(),
            |i: int|
                settled_balance(
                    m,
                    i,
                    cur,
                    sum_slashed_pending(m.validators, cur),
                    total,
                    spec,
                ),
        ),
        ..m
    }
}

/// A record that reached the effective-balance ceiling becomes eligible for
/// activation.
pub open spec fn with_eligibility(v: ValidatorView, cur: u64, spec: ChainSpec) -> ValidatorView {
    if v.activation_eligibility_epoch == FAR_FUTURE_EPOCH && v.effective_balance
        >= spec.max_effective_balance {
        ValidatorView { activation_eligibility_epoch: cur, ..v }
    } else {
        v
    }
}

/// Eligibility marking over the whole registry.
pub open spec fn eligibility_update(m: StateModel, cur: u64, spec: ChainSpec) -> StateModel {
    StateModel {
        validators: Seq::new(
            m.validators.len(),
            |i: int| with_eligibility(m.validators[i], cur, spec),
        ),
        ..m
    }
}

/// Walk the registry and start an exit for every active validator whose
/// effective balance fell to the ejection threshold.
pub open spec fn ejections_fold(
    s: StateModel,
    n: int,
    k: int,
    cur: u64,
    spec: ChainSpec,
) -> Result<StateModel, BlockProcessingError>
    decreases n - k,
{
    if k < 0 || k >= n {
        Ok(s)
    } else {
        let v = s.validators[k];
        if is_active(v, cur) && v.effective_balance <= spec.ejection_balance {
            match initiate_exit_outcome(s, k, spec) {
                Err(e) => Err(e),
                Ok(m) => ejections_fold(m, n, k + 1, cur, spec),
            }
        } else {
            ejections_fold(s, n, k + 1, cur, spec)
        }
    }
}

/// Walk the registry and activate queued validators whose eligibility is
/// finalized, up to the churn limit; the count of activations rides along.
pub open spec fn activations_fold(
    s: StateModel,
    n: int,
    k: int,
    used: int,
    limit: int,
    fin: u64,
    act_epoch: u64,
    spec: ChainSpec,
) -> (StateModel, int)
    decreases n - k,
{
    if k < 0 || k >= n {
        (s, used)
    } else {
        let v = s.validators[k];
        if v.activation_epoch == FAR_FUTURE_EPOCH && v.activation_eligibility_epoch
            != FAR_FUTURE_EPOCH && v.activation_eligibility_epoch <= fin && used < limit {
            let m = StateModel {
                validators: s.validators.update(
                    k,
                    ValidatorView { activation_epoch: act_epoch, ..v },
                ),
                ..s
            };
            activations_fold(m, n, k + 1, used + 1, limit, fin, act_epoch, spec)
        } else {
            activations_fold(s, n, k + 1, used, limit, fin, act_epoch, spec)
        }
    }
}

/// The boundary rotation: the ended epoch's attestations become the previous
/// epoch's, the accumulator empties, and at the end of a voting period the
/// eth1 votes clear.
pub open spec fn rotation_update(s: StateModel, clear_votes: bool) -> StateModel {
    StateModel {
        previous_epoch_attestations: s.current_epoch_attestations,
        current_epoch_attestations: Seq::<PendingAttestationView>::empty(),
        eth1_data_votes: if clear_votes {
            Seq::<crate::types::Eth1DataView>::empty()
        } else {
            s.eth1_data_votes
        },
        ..s
    }
}

/// What one run of epoch accounting does to the state, or the fault that
/// stops it.
pub open spec fn epoch_outcome(s: StateModel, spec: ChainSpec) -> Result<
    StateModel,
    BlockProcessingError,
> {
    let cur = epoch_of(s.slot, spec);
    let prev = previous_epoch_of(cur);
    let total_i = sum_effective(s.validators, cur);
    let prev_root = s.block_roots[(prev as int * spec.slots_per_epoch as int) % (
    spec.slots_per_historical_root as int)];
    let cur_root = s.block_roots[(cur as int * spec.slots_per_epoch as int) % (
    spec.slots_per_historical_root as int)];
    let pb_i = sum_attesting(s.validators, s.previous_epoch_attestations, prev, prev_root);
    let cb_i = sum_attesting(s.validators, s.current_epoch_attestations, cur, cur_root);
    if total_i > u64::MAX || pb_i > u64::MAX || cb_i > u64::MAX {
        Err(BlockProcessingError::ArithmeticOverflow)
    } else {
        let total = total_i as u64;
        let s1 = justification_update(
            s,
            total,
            pb_i as u64,
            cb_i as u64,
            prev_root,
            cur_root,
            spec,
        );
        let finality_delay = if cur >= s1.finalized_checkpoint.epoch {
            (cur - s1.finalized_checkpoint.epoch) as u64
        } else {
            0u64
        };
        match rewards_outcome(s1, prev, prev_root, finality_delay, spec) {
            Err(e) => Err(e),
            Ok(s2) => {
                let s3 = settlement_outcome(s2, cur, total, spec);
                let s4 = eligibility_update(s3, cur, spec);
                match ejections_fold(s4, s4.validators.len() as int, 0, cur, spec) {
                    Err(e) => Err(e),
                    Ok(s5) => {
                        if cur + 1 + spec.activation_exit_delay > u64::MAX {
                            Err(BlockProcessingError::ArithmeticOverflow)
                        } else {
                            let act_epoch = (cur + 1 + spec.activation_exit_delay) as u64;
                            let limit = crate::block_processing::churn_limit(
                                s5.validators,
                                cur,
                                spec,
                            );
                            let s6 = activations_fold(
                                s5,
                                s5.validators.len() as int,
                                0,
                                0,
                                limit,
                                s5.finalized_checkpoint.epoch,
                                act_epoch,
                                spec,
                            ).0;
                            Ok(
                                rotation_update(
                                    s6,
                                    (s.slot as int + 1) % (
                                    spec.slots_per_eth1_voting_period as int) == 0,
                                ),
                            )
                        }
                    }
                }
            }
        }
    }
}

} // verus!

verus! {

impl BeaconState {
    /// Apply rewards and penalties to every balance.
    fn apply_rewards(
        &mut self,
        prev: u64,
        prev_root: &Hash256,
        finality_delay: u64,
        spec: &ChainSpec,
    ) -> (res: Result<(), BlockProcessingError>)
        requires
            spec.wf(),
            old(self).wf(*spec),
        ensures
            final(self).wf(*spec),
            res matches Ok(()) ==> rewards_outcome(
                old(self)@,
                prev,
                prev_root@,
                finality_delay,
                *spec,
            ) == Ok::<StateModel, BlockProcessingError>(final(self)@),
            res matches Err(e) ==> rewards_outcome(
                old(self)@,
                prev,
                prev_root@,
                finality_delay,
                *spec,
            ) == Err::<StateModel, BlockProcessingError>(e) && final(self)@ == old(self)@,
            final(self).validators == old(self).validators,
            final(self).slot == old(self).slot,
    {
        let ghost pre = self@;
        let ghost pre_state = *self;
        let n = self.validators.len();
        let mut new_balances: Vec<u64> = Vec::new();
        let mut i: usize = 0;
        while i < n
            invariant
                spec.wf(),
                self.wf(*spec),
                *self == pre_state,
                self@ == pre,
                i <= n,
                n == pre.validators.len(),
                n == pre.balances.len(),
                new_balances@.len() == i,
                forall|j: int|
                    0 <= j < i ==> #[trigger] adjusted_balance(
                        pre,
                        j,
                        prev,
                        prev_root@,
                        finality_delay,
                        *spec,
                    ) <= u64::MAX && new_balances@[j] == adjusted_balance(
                        pre,
                        j,
                        prev,
                        prev_root@,
                        finality_delay,
                        *spec,
                    ),
            decreases n - i,
        {
            let v = match self.validators.get(i) {
                Some(v) => v.duplicate(),
                None => {
                    proof {
                        assert(false);
                    }
                    return Err(BlockProcessingError::ArithmeticOverflow);
                }
            };
            let bal = self.balances[i];
            let next: u64 = if !v.is_active_at(prev) {
                bal
            } else {
                let base = v.effective_balance / spec.base_reward_quotient;
                if Self::did_attest(&self.previous_epoch_attestations, i, prev, prev_root) {
                    match bal.checked_add(base) {
                        Some(x) => x,
                        None => {
                            proof {
                                assert(adjusted_balance(
                                    pre,
                                    i as int,
                                    prev,
                                    prev_root@,
                                    finality_delay,
                                    *spec,
                                ) > u64::MAX);
                            }
                            return Err(BlockProcessingError::ArithmeticOverflow);
                        }
                    }
                } else {
                    let pen128: u128 = if finality_delay > spec.min_epochs_to_inactivity_penalty {
                        proof {
                            assert((v.effective_balance as u128) * (finality_delay as u128)
                                <= 0xFFFF_FFFF_FFFF_FFFFu128 * 0xFFFF_FFFF_FFFF_FFFFu128)
                                by (nonlinear_arith)
                                requires
                                    v.effective_balance <= 0xFFFF_FFFF_FFFF_FFFFu64,
                                    finality_delay <= 0xFFFF_FFFF_FFFF_FFFFu64,
                            ;
                        }
                        (v.effective_balance as u128) * (finality_delay as u128) / (
                        spec.inactivity_penalty_quotient as u128)
                    } else {
                        0
                    };
                    let pen: u64 = if pen128 > 0xFFFF_FFFF_FFFF_FFFFu128 {
                        u64::MAX
                    } else {
                        pen128 as u64
                    };
                    let charge128: u128 = (base as u128) + (pen as u128);
                    if (bal as u128) > charge128 {
                        ((bal as u128) - charge128) as u64
                    } else {
                        0
                    }
                }
            };
            proof {
                assert(next == adjusted_balance(
                    pre,
                    i as int,
                    prev,
                    prev_root@,
                    finality_delay,
                    *spec,
                ));
            }
            new_balances.push(next);
            i = i + 1;
        }
        self.balances = new_balances;
        proof {
            assert(self@ =~~= (StateModel {
                balances: Seq::new(
                    pre.balances.len(),
                    |j: int| adjusted_balance(pre, j, prev, prev_root@, finality_delay, *spec) as u64,
                ),
                ..pre
            }));
            lemma_wf_same_shape(pre_state, *self, *spec);
        }
        Ok(())
    }

    /// Total effective balance of the slashed, not-yet-withdrawable
    /// validators, as a wide value.
    fn slashed_pending_total(&self, cur: u64) -> (r: u128)
        requires
            self.validators.well_formed(),
        ensures
            r == sum_slashed_pending(self@.validators, cur),
    {
        let n = self.validators.len();
        let mut acc: u128 = 0;
        let mut i: usize = 0;
        while i < n
            invariant
                self.validators.well_formed(),
                i <= n,
                n == self@.validators.len(),
                acc == sum_slashed_pending(self@.validators.take(i as int), cur),
                acc <= (i as int) * (0xFFFF_FFFF_FFFF_FFFFu64 as int),
            decreases n - i,
        {
            match self.validators.get(i) {
                Some(v) => {
                    if v.slashed && cur < v.withdrawable_epoch {
                        proof {
                            vstd::arithmetic::mul::lemma_mul_inequality(
                                i as int + 1,
                                0xFFFF_FFFF_FFFF_FFFFu64 as int,
                                0xFFFF_FFFF_FFFF_FFFFu64 as int,
                            );
                        }
                        acc = acc + (v.effective_balance as u128);
                    }
                }
                None => {
                    proof {
                        assert(false);
                    }
                }
            }
            i = i + 1;
            proof {
                assert(self@.validators.take(i as int).drop_last() =~= self@.validators.take(
                    i as int - 1,
                ));
                vstd::arithmetic::mul::lemma_mul_inequality(
                    i as int,
                    i as int,
                    0xFFFF_FFFF_FFFF_FFFFu64 as int,
                );
            }
        }
        proof {
            assert(self@.validators.take(n as int) =~= self@.validators);
        }
        acc
    }

    /// Apply the deferred slashing charges.
    fn apply_settlement(&mut self, cur: u64, total: u64, spec: &ChainSpec)
        requires
            spec.wf(),
            old(self).wf(*spec),
        ensures
            final(self).wf(*spec),
            final(self)@ == settlement_outcome(old(self)@, cur, total, *spec),
            final(self).validators == old(self).validators,
            final(self).slot == old(self).slot,
    {
        let ghost pre = self@;
        let ghost pre_state = *self;
        let ts128 = self.slashed_pending_total(cur);
        let ghost ts = sum_slashed_pending(pre.validators, cur);
        proof {
            lemma_sum_slashed_nonneg(pre.validators, cur);
        }
        let num128: u128 = if ts128 >= (total as u128) {
            total as u128
        } else {
            let triple = 3 * ts128;
            if triple > total as u128 {
                total as u128
            } else {
                triple
            }
        };
        let n = self.validators.len();
        let mut new_balances: Vec<u64> = Vec::new();
        let mut i: usize = 0;
        let half_window = spec.epochs_per_slashings_vector / 2;
        while i < n
            invariant
                spec.wf(),
                self.wf(*spec),
                *self == pre_state,
                self@ == pre,
                i <= n,
                n == pre.validators.len(),
                n == pre.balances.len(),
                new_balances@.len() == i,
                half_window == spec.epochs_per_slashings_vector / 2,
                num128 == (if 3 * ts > total { total as int } else { 3 * ts }),
                ts == sum_slashed_pending(pre.validators, cur),
                forall|j: int|
                    0 <= j < i ==> new_balances@[j] == settled_balance(
                        pre,
                        j,
                        cur,
                        sum_slashed_pending(pre.validators, cur),
                        total,
                        *spec,
                    ),
            decreases n - i,
        {
            let v = match self.validators.get(i) {
                Some(v) => v.duplicate(),
                None => {
                    proof {
                        assert(false);
                    }
                    return ;
                }
            };
            let bal = self.balances[i];
            let in_window = v.slashed && match cur.checked_add(half_window) {
                Some(x) => x == v.withdrawable_epoch,
                None => false,
            };
            let next: u64 = if in_window {
                proof {
                    assert((v.effective_balance as u128) * num128 <= 0xFFFF_FFFF_FFFF_FFFFu128
                        * 0xFFFF_FFFF_FFFF_FFFFu128) by (nonlinear_arith)
                        requires
                            v.effective_balance <= 0xFFFF_FFFF_FFFF_FFFFu64,
                            num128 <= 0xFFFF_FFFF_FFFF_FFFFu128,
                    ;
                }
                let penalty128: u128 = if total > 0 {
                    (v.effective_balance as u128) * num128 / (total as u128)
                } else {
                    0
                };
                if (bal as u128) >= penalty128 {
                    ((bal as u128) - penalty128) as u64
                } else {
                    0
                }
            } else {
                bal
            };
            proof {
                assert(next == settled_balance(pre, i as int, cur, ts, total, *spec));
            }
            new_balances.push(next);
            i = i + 1;
        }
        self.balances = new_balances;
        proof {
            assert(self@ =~~= settlement_outcome(pre, cur, total, *spec));
            lemma_wf_same_shape(pre_state, *self, *spec);
        }
    }
}

} // verus!

verus! {

impl BeaconState {
    /// Mark newly eligible validators.
    fn apply_eligibility(&mut self, cur: u64, spec: &ChainSpec)
        requires
            spec.wf(),
            old(self).wf(*spec),
        ensures
            final(self).wf(*spec),
            final(self)@ == eligibility_update(old(self)@, cur, *spec),
            final(self).slot == old(self).slot,
    {
        let ghost pre = self@;
        let n = self.validators.len();
        let mut i: usize = 0;
        while i < n
            invariant
                spec.wf(),
                self.wf(*spec),
                i <= n,
                n == pre.validators.len(),
                self@.validators.len() == n,
                forall|j: int|
                    0 <= j < i ==> self@.validators[j] == with_eligibility(
                        pre.validators[j],
                        cur,
                        *spec,
                    ),
                forall|j: int| i <= j < n ==> self@.validators[j] == pre.validators[j],
                self@ == (StateModel { validators: self@.validators, ..pre }),
                self.slot == old(self).slot,
                pre == old(self)@,
            decreases n - i,
        {
            let ghost step_pre = self@;
            let needs_update = match self.validators.get(i) {
                Some(v) => v.activation_eligibility_epoch == FAR_FUTURE_EPOCH
                    && v.effective_balance >= spec.max_effective_balance,
                None => {
                    proof {
                        assert(false);
                    }
                    false
                }
            };
            if needs_update {
                let mut nv = match self.validators.get(i) {
                    Some(v) => v.duplicate(),
                    None => {
                        proof {
                            assert(false);
                        }
                        return ;
                    }
                };
                nv.activation_eligibility_epoch = cur;
                proof {
                    assert(nv@ =~= with_eligibility(pre.validators[i as int], cur, *spec));
                }
                match self.validators.replace(i, nv) {
                    Ok(()) => {}
                    Err(_) => {
                        proof {
                            assert(false);
                        }
                        return ;
                    }
                }
                proof {
                    assert(self@ =~~= (StateModel {
                        validators: step_pre.validators.update(
                            i as int,
                            with_eligibility(pre.validators[i as int], cur, *spec),
                        ),
                        ..step_pre
                    }));
                }
            } else {
                proof {
                    assert(pre.validators[i as int] == with_eligibility(
                        pre.validators[i as int],
                        cur,
                        *spec,
                    ));
                }
            }
            i = i + 1;
        }
        proof {
            assert(self@ =~~= eligibility_update(pre, cur, *spec));
        }
    }

    /// Start exits for validators at the ejection threshold.
    fn apply_ejections(&mut self, cur: u64, spec: &ChainSpec) -> (res: Result<
        (),
        BlockProcessingError,
    >)
        requires
            spec.wf(),
            old(self).wf(*spec),
        ensures
            final(self).wf(*spec),
            res matches Ok(()) ==> ejections_fold(
                old(self)@,
                old(self)@.validators.len() as int,
                0,
                cur,
                *spec,
            ) == Ok::<StateModel, BlockProcessingError>(final(self)@),
            res matches Err(e) ==> ejections_fold(
                old(self)@,
                old(self)@.validators.len() as int,
                0,
                cur,
                *spec,
            ) == Err::<StateModel, BlockProcessingError>(e),
            final(self).slot == old(self).slot,
    {
        let ghost pre = self@;
        let n = self.validators.len();
        let mut i: usize = 0;
        while i < n
            invariant
                spec.wf(),
                self.wf(*spec),
                i <= n,
                n == pre.validators.len(),
                self@.validators.len() == n,
                self.slot == old(self).slot,
                pre == old(self)@,
                ejections_fold(pre, n as int, 0, cur, *spec) == ejections_fold(
                    self@,
                    n as int,
                    i as int,
                    cur,
                    *spec,
                ),
            decreases n - i,
        {
            let ghost it_pre = self@;
            let should_eject = match self.validators.get(i) {
                Some(v) => v.is_active_at(cur) && v.effective_balance <= spec.ejection_balance,
                None => {
                    proof {
                        assert(false);
                    }
                    false
                }
            };
            if should_eject {
                match initiate_validator_exit(self, i, spec) {
                    Ok(()) => {}
                    Err(e) => {
                        proof {
                            assert(initiate_exit_outcome(it_pre, i as int, *spec) == Err::<
                                StateModel,
                                BlockProcessingError,
                            >(e));
                            assert(ejections_fold(it_pre, n as int, i as int, cur, *spec) == Err::<
                                StateModel,
                                BlockProcessingError,
                            >(e));
                        }
                        return Err(e);
                    }
                }
            }
            i = i + 1;
        }
        proof {
            assert(ejections_fold(self@, n as int, n as int, cur, *spec) == Ok::<
                StateModel,
                BlockProcessingError,
            >(self@));
        }
        Ok(())
    }

    /// Activate queued, finalized-eligible validators up to the churn limit.
    fn apply_activations(&mut self, cur: u64, act_epoch: u64, spec: &ChainSpec)
        requires
            spec.wf(),
            old(self).wf(*spec),
        ensures
            final(self).wf(*spec),
            final(self)@ == activations_fold(
                old(self)@,
                old(self)@.validators.len() as int,
                0,
                0,
                crate::block_processing::churn_limit(old(self)@.validators, cur, *spec),
                old(self)@.finalized_checkpoint.epoch,
                act_epoch,
                *spec,
            ).0,
            final(self).slot == old(self).slot,
    {
        let ghost pre = self@;
        let active = self.active_validator_count(cur);
        let by_quotient = (active as u64) / spec.churn_limit_quotient;
        let limit = if by_quotient > spec.min_per_epoch_churn_limit {
            by_quotient
        } else {
            spec.min_per_epoch_churn_limit
        };
        let ghost glimit = crate::block_processing::churn_limit(pre.validators, cur, *spec);
        proof {
            assert(limit as int == glimit);
        }
        let fin = self.finalized_checkpoint.epoch;
        let n = self.validators.len();
        let mut used: u64 = 0;
        let mut i: usize = 0;
        while i < n
            invariant
                spec.wf(),
                self.wf(*spec),
                i <= n,
                used <= i,
                n == pre.validators.len(),
                self@.validators.len() == n,
                limit as int == glimit,
                fin == pre.finalized_checkpoint.epoch,
                self.slot == old(self).slot,
                pre == old(self)@,
                activations_fold(pre, n as int, 0, 0, glimit, fin, act_epoch, *spec)
                    == activations_fold(
                    self@,
                    n as int,
                    i as int,
                    used as int,
                    glimit,
                    fin,
                    act_epoch,
                    *spec,
                ),
            decreases n - i,
        {
            let ghost step_pre = self@;
            let activate = used < limit && match self.validators.get(i) {
                Some(v) => v.activation_epoch == FAR_FUTURE_EPOCH
                    && v.activation_eligibility_epoch != FAR_FUTURE_EPOCH
                    && v.activation_eligibility_epoch <= fin,
                None => {
                    proof {
                        assert(false);
                    }
                    false
                }
            };
            if activate {
                let mut nv = match self.validators.get(i) {
                    Some(v) => v.duplicate(),
                    None => {
                        proof {
                            assert(false);
                        }
                        return ;
                    }
                };
                nv.activation_epoch = act_epoch;
                proof {
                    assert(nv@ =~= (ValidatorView {
                        activation_epoch: act_epoch,
                        ..step_pre.validators[i as int]
                    }));
                }
                match self.validators.replace(i, nv) {
                    Ok(()) => {}
                    Err(_) => {
                        proof {
                            assert(false);
                        }
                        return ;
                    }
                }
                proof {
                    assert(self@ =~~= (StateModel {
                        validators: step_pre.validators.update(
                            i as int,
                            ValidatorView {
                                activation_epoch: act_epoch,
                                ..step_pre.validators[i as int]
                            },
                        ),
                        ..step_pre
                    }));
                }
                used = used + 1;
            }
            i = i + 1;
        }
        proof {
            assert(self@ == activations_fold(
                pre,
                n as int,
                0,
                0,
                glimit,
                fin,
                act_epoch,
                *spec,
            ).0);
        }
    }

    /// Run epoch accounting once: statuses and balances, justification and
    /// finalization, rewards and penalties, slashing settlement, registry
    /// churn, and the boundary rotation.
    pub fn process_epoch(&mut self, spec: &ChainSpec) -> (res: Result<(), BlockProcessingError>)
        requires
            spec.wf(),
            old(self).wf(*spec),
        ensures
            final(self).wf(*spec),
            res matches Ok(()) ==> epoch_outcome(old(self)@, *spec) == Ok::<
                StateModel,
                BlockProcessingError,
            >(final(self)@),
            res matches Err(e) ==> epoch_outcome(old(self)@, *spec) == Err::<
                StateModel,
                BlockProcessingError,
            >(e),
            final(self).slot == old(self).slot,
    {
        let ghost pre = self@;
        let cur = self.current_epoch(spec);
        let prev = self.previous_epoch(spec);
        let total = match self.total_active_balance(cur) {
            Ok(t) => t,
            Err(e) => {
                return Err(e);
            }
        };
        // cur * slots_per_epoch never exceeds the slot it was derived from.
        proof {
            vstd::arithmetic::div_mod::lemma_fundamental_div_mod(
                self.slot as int,
                spec.slots_per_epoch as int,
            );
            vstd::arithmetic::div_mod::lemma_mod_bound(
                self.slot as int,
                spec.slots_per_epoch as int,
            );
            vstd::arithmetic::mul::lemma_mul_is_commutative(
                cur as int,
                spec.slots_per_epoch as int,
            );
            assert((cur as int) * (spec.slots_per_epoch as int) <= self.slot as int);
            vstd::arithmetic::mul::lemma_mul_inequality(
                prev as int,
                cur as int,
                spec.slots_per_epoch as int,
            );
        }
        let cur_start = cur * spec.slots_per_epoch;
        let prev_start = prev * spec.slots_per_epoch;
        let prev_root = self.get_block_root_at_slot(prev_start, spec);
        let cur_root = self.get_block_root_at_slot(cur_start, spec);
        let prev_bal = match self.attesting_balance(
            &self.previous_epoch_attestations,
            prev,
            &prev_root,
        ) {
            Ok(b) => b,
            Err(e) => {
                return Err(e);
            }
        };
        let cur_bal = match self.attesting_balance(
            &self.current_epoch_attestations,
            cur,
            &cur_root,
        ) {
            Ok(b) => b,
            Err(e) => {
                return Err(e);
            }
        };
        let ghost gprev_root = prev_root@;
        let ghost gcur_root = cur_root@;
        self.apply_justification(total, prev_bal, cur_bal, prev_root, cur_root, spec);
        let ghost s1 = self@;
        let finality_delay = if cur >= self.finalized_checkpoint.epoch {
            cur - self.finalized_checkpoint.epoch
        } else {
            0
        };
        let prev_root2 = self.get_block_root_at_slot(prev_start, spec);
        match self.apply_rewards(prev, &prev_root2, finality_delay, spec) {
            Ok(()) => {}
            Err(e) => {
                return Err(e);
            }
        }
        let ghost s2 = self@;
        self.apply_settlement(cur, total, spec);
        let ghost s3 = self@;
        self.apply_eligibility(cur, spec);
        let ghost s4 = self@;
        match self.apply_ejections(cur, spec) {
            Ok(()) => {}
            Err(e) => {
                return Err(e);
            }
        }
        let ghost s5 = self@;
        let act_epoch = match cur.checked_add(1) {
            Some(x) => match x.checked_add(spec.activation_exit_delay) {
                Some(y) => y,
                None => {
                    return Err(BlockProcessingError::ArithmeticOverflow);
                }
            },
            None => {
                return Err(BlockProcessingError::ArithmeticOverflow);
            }
        };
        self.apply_activations(cur, act_epoch, spec);
        let ghost s6 = self@;
        // Boundary rotation: the ended epoch's attestations become the
        // previous epoch's, and at a voting-period boundary the votes clear.
        let ghost pre_rot_state = *self;
        let rotated = clone_pending_vec(&self.current_epoch_attestations);
        self.previous_epoch_attestations = rotated;
        self.current_epoch_attestations = Vec::new();
        let clear_votes = ((self.slot as u128) + 1) % (spec.slots_per_eth1_voting_period as u128)
            == 0;
        if clear_votes {
            self.eth1_data_votes = Vec::new();
        }
        proof {
            assert(self@.current_epoch_attestations =~= Seq::<PendingAttestationView>::empty());
            if clear_votes {
                assert(self@.eth1_data_votes =~= Seq::<crate::types::Eth1DataView>::empty());
            }
            assert(self@.previous_epoch_attestations =~~= s6.current_epoch_attestations);
            assert(self.slot == pre.slot);
            assert(clear_votes == ((pre.slot as int + 1) % (
            spec.slots_per_eth1_voting_period as int) == 0));
            assert(self@ =~~= rotation_update(
                s6,
                (pre.slot as int + 1) % (spec.slots_per_eth1_voting_period as int) == 0,
            ));
            lemma_wf_same_shape(pre_rot_state, *self, *spec);
            assert(epoch_outcome(pre, *spec) == Ok::<StateModel, BlockProcessingError>(self@));
        }
        Ok(())
    }
}

} // verus!
