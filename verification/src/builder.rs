//! Deterministic construction of small test states, and the helpers that
//! stage a deposit or teleport a state across epochs.

use vstd::prelude::*;
use crate::hashing::{Hash256, clone_bytes, zero32_exec, zero32, u64_le_bytes_exec, u64_le_bytes};
use crate::config::ChainSpec;
use crate::merkle::MerkleTree;
use crate::registry::ValidatorTree;
use crate::state::{BeaconState, epoch_of};
use crate::types::{
    BeaconBlock, BeaconBlockHeader, Checkpoint, Deposit, Eth1Data, compute_deposit_data_root,
    deposit_data_root,
};
use crate::validator::{Validator, FAR_FUTURE_EPOCH};
use crate::merkle::root_from_branch_spec;
use crate::block_processing::is_proposer;
use crate::state::count_active;

verus! {

broadcast use crate::hashing::lemma_bytes_deep_view, crate::hashing::lemma_deep_view_len;

/// How many validators the small test state holds.
pub const NUM_VALIDATORS: usize = 8;

/// Which epoch the small test state is teleported to.
pub const STATE_EPOCH: u64 = 4;

/// A validator's key material, as the signature collaborator hands it over:
/// plain bytes, never interpreted here.
pub struct Keypair {
    pub pk: Vec<u8>,
    pub sk: Vec<u8>,
}

/// A deterministic 48-byte public key for a test validator index.
pub fn test_pubkey(index: u64) -> (r: Vec<u8>)
    ensures
        r@.len() == 48,
        r@.take(8) == u64_le_bytes(index),
{
    let mut pk = u64_le_bytes_exec(index);
    let mut i: usize = 8;
    while i < 48
        invariant
            8 <= i <= 48,
            pk@.len() == i,
            pk@.take(8) == u64_le_bytes(index),
        decreases 48 - i,
    {
        pk.push(0u8);
        i = i + 1;
        proof {
            assert(pk@.take(8) =~= u64_le_bytes(index));
        }
    }
    pk
}

/// Build a state holding `num_validators` active validators, teleported to
/// the last slot of the test epoch, beside their key material.
pub fn build_minimal_state_with_validators(num_validators: usize, spec: &ChainSpec) -> (r: (
    BeaconState,
    Vec<Keypair>,
))
    requires
        spec.wf(),
        (STATE_EPOCH + 1) * spec.slots_per_epoch <= u64::MAX,
    ensures
        r.0.wf(*spec),
        r.0@.validators.len() == num_validators as int || num_validators as int
            > r.0.validators.capacity(),
        r.0.slot == (STATE_EPOCH + 1) * spec.slots_per_epoch - 1,
        r.1@.len() == num_validators,
        forall|i: int|
            0 <= i < r.0@.validators.len() ==> crate::validator::is_active(
                #[trigger] r.0@.validators[i],
                epoch_of(r.0.slot, *spec),
            ),
{
    let mut validators: Vec<Validator> = Vec::new();
    let mut keypairs: Vec<Keypair> = Vec::new();
    let mut i: usize = 0;
    while i < num_validators
        invariant
            i <= num_validators,
            validators@.len() == i,
            keypairs@.len() == i,
            forall|j: int|
                0 <= j < i ==> {
                    let v = (#[trigger] validators@[j])@;
                    v.activation_epoch == 0 && v.exit_epoch == FAR_FUTURE_EPOCH
                },
        decreases num_validators - i,
    {
        let pk = test_pubkey(i as u64);
        let sk = u64_le_bytes_exec(i as u64);
        let v = Validator {
            pubkey: clone_bytes(&pk),
            withdrawal_credentials: zero32_exec(),
            effective_balance: spec.max_effective_balance,
            slashed: false,
            activation_eligibility_epoch: 0,
            activation_epoch: 0,
            exit_epoch: FAR_FUTURE_EPOCH,
            withdrawable_epoch: FAR_FUTURE_EPOCH,
        };
        validators.push(v);
        keypairs.push(Keypair { pk, sk });
        i = i + 1;
    }
    let tree = ValidatorTree::from_validators(validators);
    let mut balances: Vec<u64> = Vec::new();
    let mut b: usize = 0;
    let n = tree.len();
    while b < n
        invariant
            b <= n,
            balances@.len() == b,
        decreases n - b,
    {
        balances.push(spec.max_effective_balance);
        b = b + 1;
    }
    let mut randao_mixes: Vec<Hash256> = Vec::new();
    let mut m: u64 = 0;
    while m < spec.epochs_per_historical_vector
        invariant
            m <= spec.epochs_per_historical_vector,
            randao_mixes@.len() == m,
            forall|j: int|
                0 <= j < m ==> (#[trigger] randao_mixes@[j])@.len() == 32,
        decreases spec.epochs_per_historical_vector - m,
    {
        randao_mixes.push(zero32_exec());
        m = m + 1;
    }
    let mut block_roots: Vec<Hash256> = Vec::new();
    let mut k: u64 = 0;
    while k < spec.slots_per_historical_root
        invariant
            k <= spec.slots_per_historical_root,
            block_roots@.len() == k,
        decreases spec.slots_per_historical_root - k,
    {
        block_roots.push(zero32_exec());
        k = k + 1;
    }
    let mut justification_bits: Vec<bool> = Vec::new();
    justification_bits.push(false);
    justification_bits.push(false);
    justification_bits.push(false);
    justification_bits.push(false);
    proof {
        assert((STATE_EPOCH + 1) * spec.slots_per_epoch >= STATE_EPOCH + 1) by (nonlinear_arith)
            requires
                spec.slots_per_epoch >= 1,
        ;
    }
    let slot = (STATE_EPOCH + 1) * spec.slots_per_epoch - 1;
    let state = BeaconState {
        slot,
        latest_block_header: BeaconBlockHeader {
            slot: 0,
            parent_root: zero32_exec(),
            state_root: zero32_exec(),
            body_root: zero32_exec(),
        },
        block_roots,
        randao_mixes,
        validators: tree,
        balances,
        justification_bits,
        previous_justified_checkpoint: Checkpoint { epoch: 0, root: zero32_exec() },
        current_justified_checkpoint: Checkpoint { epoch: 0, root: zero32_exec() },
        finalized_checkpoint: Checkpoint { epoch: 0, root: zero32_exec() },
        eth1_data: Eth1Data {
            deposit_root: zero32_exec(),
            deposit_count: 0,
            block_hash: zero32_exec(),
        },
        eth1_data_votes: Vec::new(),
        eth1_deposit_index: 0,
        previous_epoch_attestations: Vec::new(),
        current_epoch_attestations: Vec::new(),
    };
    (state, keypairs)
}

/// Build the eight-validator test state at the last slot of the test epoch.
pub fn build_minimal_state(spec: &ChainSpec) -> (r: (BeaconState, Vec<Keypair>))
    requires
        spec.wf(),
        (STATE_EPOCH + 1) * spec.slots_per_epoch <= u64::MAX,
    ensures
        r.0.wf(*spec),
        r.0@.validators.len() == NUM_VALIDATORS as int || (NUM_VALIDATORS as int)
            > r.0.validators.capacity(),
        r.0.slot == (STATE_EPOCH + 1) * spec.slots_per_epoch - 1,
        r.1@.len() == NUM_VALIDATORS,
{
    build_minimal_state_with_validators(NUM_VALIDATORS, spec)
}

/// Stage one deposit: build the single-leaf deposit tree, give the deposit
/// its inclusion proof, and record the tree's root as the state's canonical
/// eth1 data, one deposit deep.
pub fn insert_eth1_data(state: &mut BeaconState, deposit: &mut Deposit)
    ensures
        final(state).eth1_data.deposit_count == 1,
        final(state).eth1_deposit_index == 0,
        final(deposit).proof@.len() == 32,
        final(deposit).data == old(deposit).data,
        root_from_branch_spec(
            deposit_data_root(
                final(deposit).data.pubkey@,
                final(deposit).data.withdrawal_credentials@,
                final(deposit).data.amount,
            ),
            final(deposit).proof.deep_view(),
            0,
        ) == final(state)@.eth1_data.deposit_root,
        final(state).slot == old(state).slot,
        final(state).validators == old(state).validators,
        final(state).balances == old(state).balances,
        final(state)@ == (crate::state::StateModel {
            eth1_data: final(state)@.eth1_data,
            eth1_deposit_index: 0,
            ..old(state)@
        }),
{
    let mut block_hash: Vec<u8> = Vec::new();
    let mut i: usize = 0;
    while i < 32
        invariant
            i <= 32,
            block_hash@.len() == i,
        decreases 32 - i,
    {
        block_hash.push(1u8);
        i = i + 1;
    }
    let signed_root = compute_deposit_data_root(&deposit.data);
    let mut leaves: Vec<Hash256> = Vec::new();
    leaves.push(clone_bytes(&signed_root));
    proof {
        vstd::arithmetic::power2::lemma2_to64();
        vstd::arithmetic::power2::lemma_pow2_strictly_increases(5, 32);
        assert(leaves@.len() <= vstd::arithmetic::power2::pow2(32));
    }
    let merkle_root = MerkleTree::create(leaves.as_slice(), 32);
    let (leaf, branch) = merkle_root.generate_proof(0, 32);
    proof {
        assert(leaf@ == merkle_root.leaf_seq()[0]);
        assert(merkle_root.leaf_seq()[0] == signed_root@);
    }
    deposit.proof = branch;
    let root = merkle_root.hash();
    state.eth1_data = Eth1Data { deposit_root: root, deposit_count: 1, block_hash };
    state.eth1_deposit_index = 0;
    proof {
        assert(final(state)@ =~~= (crate::state::StateModel {
            eth1_data: final(state)@.eth1_data,
            eth1_deposit_index: 0,
            ..old(state)@
        }));
    }
}

/// Teleport a state to the last slot of `epoch`, with the justification
/// trail a healthy chain would carry there: the prior epochs justified and
/// finalized, all four justification bits set.
pub fn increase_state_epoch(state: &mut BeaconState, epoch: u64, spec: &ChainSpec)
    requires
        spec.wf(),
        epoch >= 3,
        (epoch + 1) * spec.slots_per_epoch <= u64::MAX,
    ensures
        final(state).slot == (epoch + 1) * spec.slots_per_epoch - 1,
        final(state).previous_justified_checkpoint.epoch == epoch - 3,
        final(state).current_justified_checkpoint.epoch == epoch - 2,
        final(state).finalized_checkpoint.epoch == epoch - 3,
        final(state).justification_bits@ == seq![true, true, true, true],
        final(state).validators == old(state).validators,
        final(state).balances == old(state).balances,
        old(state).wf(*spec) ==> final(state).wf(*spec),
{
    let ghost pre_state = *state;
    proof {
        assert((epoch + 1) * spec.slots_per_epoch >= epoch + 1) by (nonlinear_arith)
            requires
                spec.slots_per_epoch >= 1,
        ;
    }
    state.slot = (epoch + 1) * spec.slots_per_epoch - 1;
    state.previous_justified_checkpoint = Checkpoint {
        epoch: epoch - 3,
        root: clone_bytes(&state.previous_justified_checkpoint.root),
    };
    state.current_justified_checkpoint = Checkpoint {
        epoch: epoch - 2,
        root: clone_bytes(&state.current_justified_checkpoint.root),
    };
    state.finalized_checkpoint = Checkpoint {
        epoch: epoch - 3,
        root: clone_bytes(&state.finalized_checkpoint.root),
    };
    let mut bits: Vec<bool> = Vec::new();
    bits.push(true);
    bits.push(true);
    bits.push(true);
    bits.push(true);
    state.justification_bits = bits;
    proof {
        assert(state.justification_bits@ =~= seq![true, true, true, true]);
        if pre_state.wf(*spec) {
            crate::state::lemma_wf_same_shape(pre_state, *state, *spec);
        }
    }
}

/// Record the signature collaborator's verdict for a block a test built: the
/// proposer expected by the state has signed it.
pub fn sign_block(
    block: &mut BeaconBlock,
    state: &BeaconState,
    keypairs: &Vec<Keypair>,
    spec: &ChainSpec,
) -> (res: Option<usize>)
    requires
        spec.wf(),
        state.validators.well_formed(),
    ensures
        res matches Some(p) ==> is_proposer(
            state@.validators,
            epoch_of(state.slot, *spec),
            state.slot,
            p as int,
        ),
        res is None <==> count_active(state@.validators, epoch_of(state.slot, *spec)) == 0,
        final(block).proposer_signature_ok,
        final(block).slot == old(block).slot,
        final(block).parent_root == old(block).parent_root,
        final(block).state_root == old(block).state_root,
        final(block).body_root == old(block).body_root,
        final(block).body == old(block).body,
{
    let proposer = state.get_beacon_proposer_index(spec);
    block.proposer_signature_ok = true;
    proposer
}

} // verus!
