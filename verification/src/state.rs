//! The beacon state: the full consensus-relevant snapshot at a slot boundary,
//! and the read-only accounting helpers every processor shares.

use vstd::prelude::*;
use crate::hashing::{Hash256, clone_bytes, bytes_eq};

use crate::config::ChainSpec;
use crate::errors::BlockProcessingError;
use crate::registry::ValidatorTree;
use crate::types::{
    BeaconBlockHeader, Checkpoint, CheckpointView, Eth1Data, Eth1DataView, HeaderView,
    PendingAttestation, PendingAttestationView,
};
use crate::validator::{ValidatorView, is_active};

verus! {

broadcast use crate::hashing::lemma_bytes_deep_view, crate::hashing::lemma_deep_view_len;

/// The full chain state at a slot boundary.
pub struct BeaconState {
    pub slot: u64,
    pub latest_block_header: BeaconBlockHeader,
    pub block_roots: Vec<Hash256>,
    pub randao_mixes: Vec<Hash256>,
    pub validators: ValidatorTree,
    pub balances: Vec<u64>,
    pub justification_bits: Vec<bool>,
    pub previous_justified_checkpoint: Checkpoint,
    pub current_justified_checkpoint: Checkpoint,
    pub finalized_checkpoint: Checkpoint,
    pub eth1_data: Eth1Data,
    pub eth1_data_votes: Vec<Eth1Data>,
    pub eth1_deposit_index: u64,
    pub previous_epoch_attestations: Vec<PendingAttestation>,
    pub current_epoch_attestations: Vec<PendingAttestation>,
}

/// The mathematical image of a beacon state.
#[verifier::ext_equal]
pub struct StateModel {
    pub slot: u64,
    pub latest_block_header: HeaderView,
    pub block_roots: Seq<Seq<u8>>,
    pub randao_mixes: Seq<Seq<u8>>,
    pub validators: Seq<ValidatorView>,
    pub balances: Seq<u64>,
    pub justification_bits: Seq<bool>,
    pub previous_justified_checkpoint: CheckpointView,
    pub current_justified_checkpoint: CheckpointView,
    pub finalized_checkpoint: CheckpointView,
    pub eth1_data: Eth1DataView,
    pub eth1_data_votes: Seq<Eth1DataView>,
    pub eth1_deposit_index: u64,
    pub previous_epoch_attestations: Seq<PendingAttestationView>,
    pub current_epoch_attestations: Seq<PendingAttestationView>,
}

impl View for BeaconState {
    type V = StateModel;

    open spec fn view(&self) -> StateModel {
        StateModel {
            slot: self.slot,
            latest_block_header: self.latest_block_header@,
            block_roots: self.block_roots.deep_view(),
            randao_mixes: self.randao_mixes.deep_view(),
            validators: self.validators@,
            balances: self.balances@,
            justification_bits: self.justification_bits@,
            previous_justified_checkpoint: self.previous_justified_checkpoint@,
            current_justified_checkpoint: self.current_justified_checkpoint@,
            finalized_checkpoint: self.finalized_checkpoint@,
            eth1_data: self.eth1_data@,
            eth1_data_votes: self.eth1_data_votes.deep_view(),
            eth1_deposit_index: self.eth1_deposit_index,
            previous_epoch_attestations: self.previous_epoch_attestations.deep_view(),
            current_epoch_attestations: self.current_epoch_attestations.deep_view(),
        }
    }
}

/// The epoch a slot belongs to.
pub open spec fn epoch_of(slot: u64, spec: ChainSpec) -> u64
    recommends
        spec.slots_per_epoch >= 1,
{
    (slot / spec.slots_per_epoch) as u64
}

/// The epoch before `epoch`, with the first epoch its own predecessor.
pub open spec fn previous_epoch_of(epoch: u64) -> u64 {
    if epoch > 0 {
        (epoch - 1) as u64
    } else {
        0
    }
}

/// Number of validators in `s` active at `epoch`.
pub open spec fn count_active(s: Seq<ValidatorView>, epoch: u64) -> int
    decreases s.len(),
{
    if s.len() == 0 {
        0
    } else {
        count_active(s.drop_last(), epoch) + if is_active(s.last(), epoch) {
            1int
        } else {
            0int
        }
    }
}

/// Total effective balance of the validators in `s` active at `epoch`.
pub open spec fn sum_effective(s: Seq<ValidatorView>, epoch: u64) -> int
    decreases s.len(),
{
    if s.len() == 0 {
        0
    } else {
        sum_effective(s.drop_last(), epoch) + if is_active(s.last(), epoch) {
            s.last().effective_balance as int
        } else {
            0int
        }
    }
}

/// Whether one pending attestation votes for the given target and includes
/// the validator at (absolute) index `i`.
pub open spec fn att_includes(
    a: PendingAttestationView,
    i: int,
    target_epoch: u64,
    target_root: Seq<u8>,
) -> bool {
    &&& a.data.target.epoch == target_epoch
    &&& a.data.target.root == target_root
    &&& 0 <= i < a.aggregation_bits.len()
    &&& a.aggregation_bits[i]
}

/// Whether any accumulated attestation for the given target includes the
/// validator at index `i`.
pub open spec fn attested(
    i: int,
    atts: Seq<PendingAttestationView>,
    target_epoch: u64,
    target_root: Seq<u8>,
) -> bool {
    exists|k: int| 0 <= k < atts.len() && att_includes(#[trigger] atts[k], i, target_epoch, target_root)
}

/// Total effective balance of the validators in `s` that are active at
/// `epoch` and attested for the given target.
pub open spec fn sum_attesting(
    s: Seq<ValidatorView>,
    atts: Seq<PendingAttestationView>,
    epoch: u64,
    target_root: Seq<u8>,
) -> int
    decreases s.len(),
{
    if s.len() == 0 {
        0
    } else {
        sum_attesting(s.drop_last(), atts, epoch, target_root) + if is_active(s.last(), epoch)
            && attested(s.len() - 1, atts, epoch, target_root) {
            s.last().effective_balance as int
        } else {
            0int
        }
    }
}

/// Partial active-balance sums never exceed the full sum, and are never
/// negative.
pub proof fn lemma_sum_effective_prefix(s: Seq<ValidatorView>, epoch: u64, i: int)
    requires
        0 <= i <= s.len(),
    ensures
        0 <= sum_effective(s.take(i), epoch) <= sum_effective(s, epoch),
    decreases s.len() - i,
{
    if i == s.len() {
        assert(s.take(i) =~= s);
        lemma_sum_effective_nonneg(s, epoch);
    } else {
        lemma_sum_effective_prefix(s, epoch, i + 1);
        lemma_sum_effective_nonneg(s.take(i), epoch);
        assert(s.take(i + 1).drop_last() =~= s.take(i));
        assert(sum_effective(s.take(i + 1), epoch) == sum_effective(s.take(i), epoch) + (
        if is_active(s.take(i + 1).last(), epoch) {
            s.take(i + 1).last().effective_balance as int
        } else {
            0int
        }));
    }
}

/// Active-balance sums are never negative.
pub proof fn lemma_sum_effective_nonneg(s: Seq<ValidatorView>, epoch: u64)
    ensures
        sum_effective(s, epoch) >= 0,
    decreases s.len(),
{
    if s.len() > 0 {
        lemma_sum_effective_nonneg(s.drop_last(), epoch);
    }
}

/// Partial attesting-balance sums never exceed the full sum, and are never
/// negative.
pub proof fn lemma_sum_attesting_prefix(
    s: Seq<ValidatorView>,
    atts: Seq<PendingAttestationView>,
    epoch: u64,
    root: Seq<u8>,
    i: int,
)
    requires
        0 <= i <= s.len(),
    ensures
        0 <= sum_attesting_prefix(s, atts, epoch, root, i) <= sum_attesting(s, atts, epoch, root),
    decreases s.len() - i,
{
    if i == s.len() {
        assert(s.take(i) =~= s);
        lemma_sum_attesting_nonneg(s, atts, epoch, root);
    } else {
        lemma_sum_attesting_prefix(s, atts, epoch, root, i + 1);
        lemma_sum_attesting_nonneg(s.take(i), atts, epoch, root);
        assert(s.take(i + 1).drop_last() =~= s.take(i));
        assert(sum_attesting(s.take(i + 1), atts, epoch, root) == sum_attesting(
            s.take(i),
            atts,
            epoch,
            root,
        ) + (if is_active(s.take(i + 1).last(), epoch) && attested(i, atts, epoch, root) {
            s.take(i + 1).last().effective_balance as int
        } else {
            0int
        }));
    }
}

/// The attesting-balance sum over the first `i` validators, with attestation
/// bits still read at absolute indices.
pub open spec fn sum_attesting_prefix(
    s: Seq<ValidatorView>,
    atts: Seq<PendingAttestationView>,
    epoch: u64,
    root: Seq<u8>,
    i: int,
) -> int {
    sum_attesting(s.take(i), atts, epoch, root)
}

/// Attesting-balance sums are never negative.
pub proof fn lemma_sum_attesting_nonneg(
    s: Seq<ValidatorView>,
    atts: Seq<PendingAttestationView>,
    epoch: u64,
    root: Seq<u8>,
)
    ensures
        sum_attesting(s, atts, epoch, root) >= 0,
    decreases s.len(),
{
    if s.len() > 0 {
        lemma_sum_attesting_nonneg(s.drop_last(), atts, epoch, root);
    }
}

impl BeaconState {
    /// The registry is sound, balances pair up with validators, and the ring
    /// buffers have the lengths the configuration fixes.
    pub open spec fn wf(self, spec: ChainSpec) -> bool {
        &&& self.validators.well_formed()
        &&& self.validators.capacity() == vstd::arithmetic::power2::pow2(
            crate::registry::REGISTRY_TREE_DEPTH as nat,
        )
        &&& self.balances@.len() == self.validators@.len()
        &&& self.justification_bits@.len() == 4
        &&& self.randao_mixes@.len() == spec.epochs_per_historical_vector
        &&& self.block_roots@.len() == spec.slots_per_historical_root
        &&& forall|i: int|
            0 <= i < self@.randao_mixes.len() ==> (#[trigger] self@.randao_mixes[i]).len() == 32
    }

    /// The epoch the state's slot belongs to.
    pub fn current_epoch(&self, spec: &ChainSpec) -> (r: u64)
        requires
            spec.wf(),
        ensures
            r == epoch_of(self.slot, *spec),
    {
        self.slot / spec.slots_per_epoch
    }

    /// The epoch before the current one, with the first epoch its own
    /// predecessor.
    pub fn previous_epoch(&self, spec: &ChainSpec) -> (r: u64)
        requires
            spec.wf(),
        ensures
            r == previous_epoch_of(epoch_of(self.slot, *spec)),
    {
        let cur = self.current_epoch(spec);
        if cur > 0 {
            cur - 1
        } else {
            0
        }
    }

    /// Number of validators active at `epoch`.
    pub fn active_validator_count(&self, epoch: u64) -> (r: usize)
        requires
            self.validators.well_formed(),
        ensures
            r == count_active(self@.validators, epoch),
    {
        let n = self.validators.len();
        let mut count: usize = 0;
        let mut i: usize = 0;
        while i < n
            invariant
                self.validators.well_formed(),
                i <= n,
                n == self@.validators.len(),
                count <= i,
                count == count_active(self@.validators.take(i as int), epoch),
            decreases n - i,
        {
            match self.validators.get(i) {
                Some(v) => {
                    if v.is_active_at(epoch) {
                        count = count + 1;
                    }
                }
                None => {
                    proof {
                        assert(false);
                    }
                }
            }
            i = i + 1;
            proof {
                assert(self@.validators.take(i as int).drop_last() =~= self@.validators.take(
                    i as int - 1,
                ));
            }
        }
        proof {
            assert(self@.validators.take(n as int) =~= self@.validators);
        }
        count
    }

    /// Total effective balance of the validators active at `epoch`; an
    /// overflowing total is reported, never wrapped.
    pub fn total_active_balance(&self, epoch: u64) -> (res: Result<u64, BlockProcessingError>)
        requires
            self.validators.well_formed(),
        ensures
            res matches Ok(total) ==> total == sum_effective(self@.validators, epoch),
            res is Err ==> sum_effective(self@.validators, epoch) > u64::MAX,
            res is Err ==> res == Err::<u64, BlockProcessingError>(
                BlockProcessingError::ArithmeticOverflow,
            ),
    {
        let n = self.validators.len();
        let mut acc: u64 = 0;
        let mut i: usize = 0;
        while i < n
            invariant
                self.validators.well_formed(),
                i <= n,
                n == self@.validators.len(),
                acc == sum_effective(self@.validators.take(i as int), epoch),
            decreases n - i,
        {
            match self.validators.get(i) {
                Some(v) => {
                    if v.is_active_at(epoch) {
                        let eb = v.effective_balance;
                        acc = match acc.checked_add(eb) {
                            Some(x) => x,
                            None => {
                                proof {
                                    assert(self@.validators.take(i as int + 1).drop_last()
                                        =~= self@.validators.take(i as int));
                                    lemma_sum_effective_prefix(self@.validators, epoch, i as int + 1);
                                }
                                return Err(BlockProcessingError::ArithmeticOverflow);
                            }
                        };
                    }
                }
                None => {
                    proof {
                        assert(false);
                    }
                }
            }
            i = i + 1;
            proof {
                assert(self@.validators.take(i as int).drop_last() =~= self@.validators.take(
                    i as int - 1,
                ));
            }
        }
        proof {
            assert(self@.validators.take(n as int) =~= self@.validators);
        }
        Ok(acc)
    }

    /// Whether the accumulated attestations for the given target include the
    /// validator at `index`.
    pub fn did_attest(
        atts: &Vec<PendingAttestation>,
        index: usize,
        target_epoch: u64,
        target_root: &Hash256,
    ) -> (r: bool)
        ensures
            r == attested(index as int, atts.deep_view(), target_epoch, target_root@),
    {
        let mut k: usize = 0;
        while k < atts.len()
            invariant
                k <= atts@.len(),
                atts.deep_view().len() == atts@.len(),
                forall|j: int|
                    0 <= j < k ==> !att_includes(
                        #[trigger] atts.deep_view()[j],
                        index as int,
                        target_epoch,
                        target_root@,
                    ),
            decreases atts@.len() - k,
        {
            let a = &atts[k];
            if a.data.target.epoch == target_epoch && bytes_eq(&a.data.target.root, target_root)
                && index < a.aggregation_bits.len() && a.aggregation_bits[index] {
                proof {
                    assert(att_includes(
                        atts.deep_view()[k as int],
                        index as int,
                        target_epoch,
                        target_root@,
                    ));
                }
                return true;
            }
            k = k + 1;
        }
        false
    }

    /// Total effective balance of the validators active at `epoch` whose
    /// participation bit is set in some accumulated attestation for the given
    /// target; an overflowing total is reported, never wrapped.
    pub fn attesting_balance(
        &self,
        atts: &Vec<PendingAttestation>,
        epoch: u64,
        target_root: &Hash256,
    ) -> (res: Result<u64, BlockProcessingError>)
        requires
            self.validators.well_formed(),
        ensures
            res matches Ok(total) ==> total == sum_attesting(
                self@.validators,
                atts.deep_view(),
                epoch,
                target_root@,
            ),
            res is Err ==> sum_attesting(self@.validators, atts.deep_view(), epoch, target_root@)
                > u64::MAX,
            res is Err ==> res == Err::<u64, BlockProcessingError>(
                BlockProcessingError::ArithmeticOverflow,
            ),
    {
        let n = self.validators.len();
        let mut acc: u64 = 0;
        let mut i: usize = 0;
        while i < n
            invariant
                self.validators.well_formed(),
                i <= n,
                n == self@.validators.len(),
                acc == sum_attesting(
                    self@.validators.take(i as int),
                    atts.deep_view(),
                    epoch,
                    target_root@,
                ),
            decreases n - i,
        {
            match self.validators.get(i) {
                Some(v) => {
                    if v.is_active_at(epoch) && Self::did_attest(atts, i, epoch, target_root) {
                        let eb = v.effective_balance;
                        acc = match acc.checked_add(eb) {
                            Some(x) => x,
                            None => {
                                proof {
                                    assert(self@.validators.take(i as int + 1).drop_last()
                                        =~= self@.validators.take(i as int));
                                    lemma_sum_attesting_prefix(
                                        self@.validators,
                                        atts.deep_view(),
                                        epoch,
                                        target_root@,
                                        i as int + 1,
                                    );
                                }
                                return Err(BlockProcessingError::ArithmeticOverflow);
                            }
                        };
                    }
                }
                None => {
                    proof {
                        assert(false);
                    }
                }
            }
            i = i + 1;
            proof {
                assert(self@.validators.take(i as int).drop_last() =~= self@.validators.take(
                    i as int - 1,
                ));
            }
        }
        proof {
            assert(self@.validators.take(n as int) =~= self@.validators);
        }
        Ok(acc)
    }

    /// The expected proposer for the state's slot: cycling through the
    /// validators active in the current epoch, slot by slot. None exactly
    /// when no validator is active.
    pub fn get_beacon_proposer_index(&self, spec: &ChainSpec) -> (res: Option<usize>)
        requires
            spec.wf(),
            self.validators.well_formed(),
        ensures
            res is None <==> count_active(self@.validators, epoch_of(self.slot, *spec)) == 0,
            res matches Some(i) ==> {
                &&& (i as int) < self@.validators.len()
                &&& is_active(self@.validators[i as int], epoch_of(self.slot, *spec))
                &&& count_active(self@.validators.take(i as int), epoch_of(self.slot, *spec))
                    == self.slot as int % count_active(
                    self@.validators,
                    epoch_of(self.slot, *spec),
                )
            },
    {
        let epoch = self.current_epoch(spec);
        let n_active = self.active_validator_count(epoch);
        if n_active == 0 {
            return None;
        }
        let target: usize = (self.slot % (n_active as u64)) as usize;
        let n = self.validators.len();
        let mut seen: usize = 0;
        let mut i: usize = 0;
        while i < n
            invariant
                self.validators.well_formed(),
                i <= n,
                n == self@.validators.len(),
                seen == count_active(self@.validators.take(i as int), epoch),
                seen <= target,
                target < count_active(self@.validators, epoch),
                epoch == epoch_of(self.slot, *spec),
                target == self.slot as int % count_active(self@.validators, epoch),
            decreases n - i,
        {
            match self.validators.get(i) {
                Some(v) => {
                    if v.is_active_at(epoch) {
                        if seen == target {
                            return Some(i);
                        }
                        seen = seen + 1;
                    }
                }
                None => {
                    proof {
                        assert(false);
                    }
                }
            }
            i = i + 1;
            proof {
                assert(self@.validators.take(i as int).drop_last() =~= self@.validators.take(
                    i as int - 1,
                ));
            }
        }
        proof {
            assert(self@.validators.take(n as int) =~= self@.validators);
        }
        None
    }

    /// The recorded block root for a recent slot.
    pub fn get_block_root_at_slot(&self, slot: u64, spec: &ChainSpec) -> (r: Hash256)
        requires
            spec.wf(),
            self.wf(*spec),
        ensures
            r@ == self@.block_roots[(slot as int) % (spec.slots_per_historical_root as int)],
    {
        let len = self.block_roots.len();
        proof {
            assert(len == spec.slots_per_historical_root);
        }
        let idx_u64 = slot % spec.slots_per_historical_root;
        proof {
            assert(idx_u64 < len as u64);
        }
        let idx = idx_u64 as usize;
        clone_bytes(&self.block_roots[idx])
    }

    /// Field-for-field copy; the validator registry is shared, not copied.
    pub fn duplicate(&self) -> (r: BeaconState)
        ensures
            r@ == self@,
            r.validators.well_formed() == self.validators.well_formed(),
            r.validators.capacity() == self.validators.capacity(),
            r.validators.root_spec() == self.validators.root_spec(),
    {
        let r = BeaconState {
            slot: self.slot,
            latest_block_header: self.latest_block_header.duplicate(),
            block_roots: clone_hash_vec(&self.block_roots),
            randao_mixes: clone_hash_vec(&self.randao_mixes),
            validators: self.validators.clone(),
            balances: clone_u64_vec(&self.balances),
            justification_bits: clone_bool_vec(&self.justification_bits),
            previous_justified_checkpoint: self.previous_justified_checkpoint.duplicate(),
            current_justified_checkpoint: self.current_justified_checkpoint.duplicate(),
            finalized_checkpoint: self.finalized_checkpoint.duplicate(),
            eth1_data: self.eth1_data.duplicate(),
            eth1_data_votes: clone_eth1_vec(&self.eth1_data_votes),
            eth1_deposit_index: self.eth1_deposit_index,
            previous_epoch_attestations: clone_pending_vec(&self.previous_epoch_attestations),
            current_epoch_attestations: clone_pending_vec(&self.current_epoch_attestations),
        };
        proof {
            assert(r@ =~~= self@);
        }
        r
    }
}

/// Well-formedness carries over to a state with the same registry value and
/// a model equal except possibly in balance values.
pub proof fn lemma_wf_same_shape(a: BeaconState, b: BeaconState, spec: ChainSpec)
    requires
        a.wf(spec),
        b.validators == a.validators,
        b@.balances.len() == a@.balances.len(),
        b@.justification_bits.len() == a@.justification_bits.len(),
        b@.randao_mixes == a@.randao_mixes,
        b@.block_roots.len() == a@.block_roots.len(),
    ensures
        b.wf(spec),
{
    assert(b.validators.well_formed() == a.validators.well_formed());
    assert(b.randao_mixes@.len() == b@.randao_mixes.len());
    assert(a.randao_mixes@.len() == a@.randao_mixes.len());
    assert(b.block_roots@.len() == b@.block_roots.len());
    assert(a.block_roots@.len() == a@.block_roots.len());
    assert forall|i: int|
        0 <= i < b@.randao_mixes.len() implies (#[trigger] b@.randao_mixes[i]).len() == 32 by {
        assert(b@.randao_mixes[i] == a@.randao_mixes[i]);
    }
}

/// Element-wise copy of a list of hashes.
pub fn clone_hash_vec(v: &Vec<Hash256>) -> (r: Vec<Hash256>)
    ensures
        r.deep_view() == v.deep_view(),
{
    let mut out: Vec<Hash256> = Vec::new();
    let mut i: usize = 0;
    while i < v.len()
        invariant
            i <= v@.len(),
            out@.len() == i,
            forall|j: int| 0 <= j < i ==> (#[trigger] out@[j])@ == v@[j]@,
        decreases v@.len() - i,
    {
        out.push(clone_bytes(&v[i]));
        i = i + 1;
    }
    proof {
        assert(out.deep_view() =~~= v.deep_view());
    }
    out
}

/// Element-wise copy of a list of balances.
pub fn clone_u64_vec(v: &Vec<u64>) -> (r: Vec<u64>)
    ensures
        r@ == v@,
{
    let mut out: Vec<u64> = Vec::new();
    let mut i: usize = 0;
    while i < v.len()
        invariant
            i <= v@.len(),
            out@ == v@.take(i as int),
        decreases v@.len() - i,
    {
        out.push(v[i]);
        i = i + 1;
        proof {
            assert(out@ =~= v@.take(i as int));
        }
    }
    proof {
        assert(out@ =~= v@);
    }
    out
}

/// Element-wise copy of a list of bits.
pub fn clone_bool_vec(v: &Vec<bool>) -> (r: Vec<bool>)
    ensures
        r@ == v@,
{
    let mut out: Vec<bool> = Vec::new();
    let mut i: usize = 0;
    while i < v.len()
        invariant
            i <= v@.len(),
            out@ == v@.take(i as int),
        decreases v@.len() - i,
    {
        out.push(v[i]);
        i = i + 1;
        proof {
            assert(out@ =~= v@.take(i as int));
        }
    }
    proof {
        assert(out@ =~= v@);
    }
    out
}

/// Element-wise copy of a list of eth1-data records.
pub fn clone_eth1_vec(v: &Vec<Eth1Data>) -> (r: Vec<Eth1Data>)
    ensures
        r.deep_view() == v.deep_view(),
{
    let mut out: Vec<Eth1Data> = Vec::new();
    let mut i: usize = 0;
    while i < v.len()
        invariant
            i <= v@.len(),
            out@.len() == i,
            forall|j: int| 0 <= j < i ==> (#[trigger] out@[j])@ == v@[j]@,
        decreases v@.len() - i,
    {
        out.push(v[i].duplicate());
        i = i + 1;
    }
    proof {
        assert(out.deep_view() =~~= v.deep_view());
    }
    out
}

/// Element-wise copy of a list of pending attestations.
pub fn clone_pending_vec(v: &Vec<PendingAttestation>) -> (r: Vec<PendingAttestation>)
    ensures
        r.deep_view() == v.deep_view(),
{
    let mut out: Vec<PendingAttestation> = Vec::new();
    let mut i: usize = 0;
    while i < v.len()
        invariant
            i <= v@.len(),
            out@.len() == i,
            forall|j: int| 0 <= j < i ==> (#[trigger] out@[j])@ == v@[j]@,
        decreases v@.len() - i,
    {
        out.push(v[i].duplicate());
        i = i + 1;
    }
    proof {
        assert(out.deep_view() =~~= v.deep_view());
    }
    out
}

} // verus!
