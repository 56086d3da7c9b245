//! The protocol objects: checkpoints, block headers, and the immutable,
//! externally supplied operations a block body carries.
//!
//! Every signed operation arrives with the signature collaborator's verdict
//! (`..._signature_ok`): the signature scheme itself is outside this core, so
//! a processor consumes the verdict as a plain fact about the operation.

use vstd::prelude::*;
use crate::hashing::{
    Hash256, sha256, sha256_of, u64_le_bytes, u64_le_bytes_exec, clone_bytes, concat, bytes_eq,
};

verus! {

/// An (epoch, block-root) pair used as a justification or finalization anchor.
pub struct Checkpoint {
    pub epoch: u64,
    pub root: Hash256,
}

/// The mathematical image of a checkpoint.
#[verifier::ext_equal]
pub struct CheckpointView {
    pub epoch: u64,
    pub root: Seq<u8>,
}

impl View for Checkpoint {
    type V = CheckpointView;

    open spec fn view(&self) -> CheckpointView {
        CheckpointView { epoch: self.epoch, root: self.root@ }
    }
}

impl Checkpoint {
    /// Field-for-field copy.
    pub fn duplicate(&self) -> (r: Checkpoint)
        ensures
            r@ == self@,
    {
        let r = Checkpoint { epoch: self.epoch, root: clone_bytes(&self.root) };
        proof {
            assert(r@ =~= self@);
        }
        r
    }

    /// Field-for-field equality.
    pub fn equals(&self, other: &Checkpoint) -> (r: bool)
        ensures
            r == (self@ == other@),
    {
        let r = self.epoch == other.epoch && bytes_eq(&self.root, &other.root);
        proof {
            if r {
                assert(self@ =~= other@);
            }
        }
        r
    }
}

/// An externally observed deposit-contract summary: root and size of the
/// deposit tree, and the hash of the block it was read at.
pub struct Eth1Data {
    pub deposit_root: Hash256,
    pub deposit_count: u64,
    pub block_hash: Hash256,
}

/// The mathematical image of an eth1-data record.
#[verifier::ext_equal]
pub struct Eth1DataView {
    pub deposit_root: Seq<u8>,
    pub deposit_count: u64,
    pub block_hash: Seq<u8>,
}

impl View for Eth1Data {
    type V = Eth1DataView;

    open spec fn view(&self) -> Eth1DataView {
        Eth1DataView {
            deposit_root: self.deposit_root@,
            deposit_count: self.deposit_count,
            block_hash: self.block_hash@,
        }
    }
}

impl DeepView for Eth1Data {
    type V = Eth1DataView;

    open spec fn deep_view(&self) -> Eth1DataView {
        self@
    }
}

impl Eth1Data {
    /// Field-for-field copy.
    pub fn duplicate(&self) -> (r: Eth1Data)
        ensures
            r@ == self@,
    {
        let r = Eth1Data {
            deposit_root: clone_bytes(&self.deposit_root),
            deposit_count: self.deposit_count,
            block_hash: clone_bytes(&self.block_hash),
        };
        proof {
            assert(r@ =~= self@);
        }
        r
    }

    /// Field-for-field equality.
    pub fn equals(&self, other: &Eth1Data) -> (r: bool)
        ensures
            r == (self@ == other@),
    {
        let r = bytes_eq(&self.deposit_root, &other.deposit_root) && self.deposit_count
            == other.deposit_count && bytes_eq(&self.block_hash, &other.block_hash);
        proof {
            if r {
                assert(self@ =~= other@);
            }
        }
        r
    }
}

/// A block header: the slot, the chain link, and the roots of the state and
/// body it commits to.
pub struct BeaconBlockHeader {
    pub slot: u64,
    pub parent_root: Hash256,
    pub state_root: Hash256,
    pub body_root: Hash256,
}

/// The mathematical image of a block header.
#[verifier::ext_equal]
pub struct HeaderView {
    pub slot: u64,
    pub parent_root: Seq<u8>,
    pub state_root: Seq<u8>,
    pub body_root: Seq<u8>,
}

impl View for BeaconBlockHeader {
    type V = HeaderView;

    open spec fn view(&self) -> HeaderView {
        HeaderView {
            slot: self.slot,
            parent_root: self.parent_root@,
            state_root: self.state_root@,
            body_root: self.body_root@,
        }
    }
}

impl BeaconBlockHeader {
    /// Field-for-field copy.
    pub fn duplicate(&self) -> (r: BeaconBlockHeader)
        ensures
            r@ == self@,
    {
        let r = BeaconBlockHeader {
            slot: self.slot,
            parent_root: clone_bytes(&self.parent_root),
            state_root: clone_bytes(&self.state_root),
            body_root: clone_bytes(&self.body_root),
        };
        proof {
            assert(r@ =~= self@);
        }
        r
    }
}

impl BeaconBlockHeader {
    /// Field-for-field equality.
    pub fn equals(&self, other: &BeaconBlockHeader) -> (r: bool)
        ensures
            r == (self@ == other@),
    {
        let r = self.slot == other.slot && bytes_eq(&self.parent_root, &other.parent_root)
            && bytes_eq(&self.state_root, &other.state_root) && bytes_eq(
            &self.body_root,
            &other.body_root,
        );
        proof {
            if r {
                assert(self@ =~= other@);
            }
        }
        r
    }
}

/// The canonical byte image of a header: slot little-endian, then the three
/// roots.
pub open spec fn header_bytes(h: HeaderView) -> Seq<u8> {
    u64_le_bytes(h.slot) + h.parent_root + h.state_root + h.body_root
}

/// A header's hash-tree root: the digest of its canonical byte image.
pub open spec fn header_root(h: HeaderView) -> Seq<u8> {
    sha256_of(header_bytes(h))
}

/// A header's hash-tree root, as a value.
pub fn compute_header_root(h: &BeaconBlockHeader) -> (r: Hash256)
    ensures
        r@ == header_root(h@),
        r@.len() == 32,
{
    let mut bytes = u64_le_bytes_exec(h.slot);
    bytes = concat(bytes, clone_bytes(&h.parent_root));
    bytes = concat(bytes, clone_bytes(&h.state_root));
    bytes = concat(bytes, clone_bytes(&h.body_root));
    proof {
        assert(bytes@ =~= header_bytes(h@));
    }
    sha256(bytes.as_slice())
}

/// What one attestation votes for: a slot, a head block, and the source and
/// target checkpoints.
pub struct AttestationData {
    pub slot: u64,
    pub beacon_block_root: Hash256,
    pub source: Checkpoint,
    pub target: Checkpoint,
}

/// The mathematical image of an attestation's vote.
#[verifier::ext_equal]
pub struct AttestationDataView {
    pub slot: u64,
    pub beacon_block_root: Seq<u8>,
    pub source: CheckpointView,
    pub target: CheckpointView,
}

impl View for AttestationData {
    type V = AttestationDataView;

    open spec fn view(&self) -> AttestationDataView {
        AttestationDataView {
            slot: self.slot,
            beacon_block_root: self.beacon_block_root@,
            source: self.source@,
            target: self.target@,
        }
    }
}

impl AttestationData {
    /// Field-for-field copy.
    pub fn duplicate(&self) -> (r: AttestationData)
        ensures
            r@ == self@,
    {
        let r = AttestationData {
            slot: self.slot,
            beacon_block_root: clone_bytes(&self.beacon_block_root),
            source: self.source.duplicate(),
            target: self.target.duplicate(),
        };
        proof {
            assert(r@ =~= self@);
        }
        r
    }

    /// Field-for-field equality.
    pub fn equals(&self, other: &AttestationData) -> (r: bool)
        ensures
            r == (self@ == other@),
    {
        let r = self.slot == other.slot && bytes_eq(&self.beacon_block_root,
            &other.beacon_block_root) && self.source.equals(&other.source) && self.target.equals(
            &other.target,
        );
        proof {
            if r {
                assert(self@ =~= other@);
            }
        }
        r
    }
}

/// A committee's aggregated vote: the data, one participation bit per
/// committee member, and the signature collaborator's verdict on the
/// aggregate.
pub struct Attestation {
    pub data: AttestationData,
    pub aggregation_bits: Vec<bool>,
    pub signature_ok: bool,
}

/// An attestation the state keeps until epoch accounting consumes it.
pub struct PendingAttestation {
    pub data: AttestationData,
    pub aggregation_bits: Vec<bool>,
    pub inclusion_delay: u64,
    pub proposer_index: u64,
}

/// The mathematical image of a pending attestation.
#[verifier::ext_equal]
pub struct PendingAttestationView {
    pub data: AttestationDataView,
    pub aggregation_bits: Seq<bool>,
    pub inclusion_delay: u64,
    pub proposer_index: u64,
}

impl View for PendingAttestation {
    type V = PendingAttestationView;

    open spec fn view(&self) -> PendingAttestationView {
        PendingAttestationView {
            data: self.data@,
            aggregation_bits: self.aggregation_bits@,
            inclusion_delay: self.inclusion_delay,
            proposer_index: self.proposer_index,
        }
    }
}

impl DeepView for PendingAttestation {
    type V = PendingAttestationView;

    open spec fn deep_view(&self) -> PendingAttestationView {
        self@
    }
}

impl PendingAttestation {
    /// Field-for-field copy.
    pub fn duplicate(&self) -> (r: PendingAttestation)
        ensures
            r@ == self@,
    {
        let mut bits: Vec<bool> = Vec::new();
        let mut i: usize = 0;
        while i < self.aggregation_bits.len()
            invariant
                i <= self.aggregation_bits@.len(),
                bits@ == self.aggregation_bits@.take(i as int),
            decreases self.aggregation_bits@.len() - i,
        {
            bits.push(self.aggregation_bits[i]);
            i = i + 1;
            proof {
                assert(bits@ =~= self.aggregation_bits@.take(i as int));
            }
        }
        proof {
            assert(bits@ =~= self.aggregation_bits@);
        }
        let r = PendingAttestation {
            data: self.data.duplicate(),
            aggregation_bits: bits,
            inclusion_delay: self.inclusion_delay,
            proposer_index: self.proposer_index,
        };
        proof {
            assert(r@ =~= self@);
        }
        r
    }
}

/// An attestation with its participants listed by validator index, beside the
/// signature collaborator's verdict.
pub struct IndexedAttestation {
    pub attesting_indices: Vec<u64>,
    pub data: AttestationData,
    pub signature_ok: bool,
}

/// Evidence that one proposer signed two different headers for the same slot.
pub struct ProposerSlashing {
    pub proposer_index: u64,
    pub header_1: BeaconBlockHeader,
    pub header_2: BeaconBlockHeader,
    pub signature_1_ok: bool,
    pub signature_2_ok: bool,
}

/// Evidence of two conflicting attestations from overlapping validators.
pub struct AttesterSlashing {
    pub attestation_1: IndexedAttestation,
    pub attestation_2: IndexedAttestation,
}

/// What one deposit claims: a key, a withdrawal credential, an amount, and
/// the verdict on the deposit's proof of possession.
pub struct DepositData {
    pub pubkey: Vec<u8>,
    pub withdrawal_credentials: Hash256,
    pub amount: u64,
    pub signature_ok: bool,
}

/// The canonical byte image of a deposit's data.
pub open spec fn deposit_data_bytes(pubkey: Seq<u8>, credentials: Seq<u8>, amount: u64) -> Seq<
    u8,
> {
    pubkey + credentials + u64_le_bytes(amount)
}

/// A deposit data record's hash-tree root.
pub open spec fn deposit_data_root(pubkey: Seq<u8>, credentials: Seq<u8>, amount: u64) -> Seq<
    u8,
> {
    sha256_of(deposit_data_bytes(pubkey, credentials, amount))
}

/// A deposit data record's hash-tree root, as a value.
pub fn compute_deposit_data_root(data: &DepositData) -> (r: Hash256)
    ensures
        r@ == deposit_data_root(data.pubkey@, data.withdrawal_credentials@, data.amount),
        r@.len() == 32,
{
    let mut bytes = clone_bytes(&data.pubkey);
    bytes = concat(bytes, clone_bytes(&data.withdrawal_credentials));
    bytes = concat(bytes, u64_le_bytes_exec(data.amount));
    proof {
        assert(bytes@ =~= deposit_data_bytes(
            data.pubkey@,
            data.withdrawal_credentials@,
            data.amount,
        ));
    }
    sha256(bytes.as_slice())
}

/// A deposit: the claimed data and the Merkle branch that proves it sits in
/// the deposit tree.
pub struct Deposit {
    pub proof: Vec<Hash256>,
    pub data: DepositData,
}

/// A validator's signed request to leave the active set.
pub struct VoluntaryExit {
    pub epoch: u64,
    pub validator_index: u64,
    pub signature_ok: bool,
}

/// A balance-preserving value transfer between two validator-owned balances.
pub struct Transfer {
    pub sender: u64,
    pub recipient: u64,
    pub amount: u64,
    pub fee: u64,
    pub slot: u64,
    pub pubkey: Vec<u8>,
    pub signature_ok: bool,
}

/// Everything a block body carries, one list per operation type.
pub struct BeaconBlockBody {
    pub randao_reveal: Vec<u8>,
    pub randao_reveal_signature_ok: bool,
    pub eth1_data: Eth1Data,
    pub proposer_slashings: Vec<ProposerSlashing>,
    pub attester_slashings: Vec<AttesterSlashing>,
    pub attestations: Vec<Attestation>,
    pub deposits: Vec<Deposit>,
    pub voluntary_exits: Vec<VoluntaryExit>,
    pub transfers: Vec<Transfer>,
}

/// A candidate block: header fields, the body, and the signature
/// collaborator's verdict on the proposer's signature.
pub struct BeaconBlock {
    pub slot: u64,
    pub parent_root: Hash256,
    pub state_root: Hash256,
    pub body_root: Hash256,
    pub body: BeaconBlockBody,
    pub proposer_signature_ok: bool,
}

} // verus!
