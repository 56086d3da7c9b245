//! The validator record: a registered participant identified by public key,
//! tracked with its quantized balance and lifecycle epochs.

use vstd::prelude::*;
use crate::hashing::{
    Hash256, sha256, sha256_of, u64_le_bytes, u64_le_bytes_exec, clone_bytes, concat,
};

verus! {

/// An epoch that never arrives; lifecycle epochs start out here.
pub const FAR_FUTURE_EPOCH: u64 = 0xFFFF_FFFF_FFFF_FFFF;

/// A registered participant. Created on deposit processing, mutated by epoch
/// accounting and the slashing processors, never deleted.
pub struct Validator {
    pub pubkey: Vec<u8>,
    pub withdrawal_credentials: Hash256,
    pub effective_balance: u64,
    pub slashed: bool,
    pub activation_eligibility_epoch: u64,
    pub activation_epoch: u64,
    pub exit_epoch: u64,
    pub withdrawable_epoch: u64,
}

/// The mathematical image of a validator record.
#[verifier::ext_equal]
pub struct ValidatorView {
    pub pubkey: Seq<u8>,
    pub withdrawal_credentials: Seq<u8>,
    pub effective_balance: u64,
    pub slashed: bool,
    pub activation_eligibility_epoch: u64,
    pub activation_epoch: u64,
    pub exit_epoch: u64,
    pub withdrawable_epoch: u64,
}

impl View for Validator {
    type V = ValidatorView;

    open spec fn view(&self) -> ValidatorView {
        ValidatorView {
            pubkey: self.pubkey@,
            withdrawal_credentials: self.withdrawal_credentials@,
            effective_balance: self.effective_balance,
            slashed: self.slashed,
            activation_eligibility_epoch: self.activation_eligibility_epoch,
            activation_epoch: self.activation_epoch,
            exit_epoch: self.exit_epoch,
            withdrawable_epoch: self.withdrawable_epoch,
        }
    }
}

impl Validator {
    /// Field-for-field copy.
    pub fn duplicate(&self) -> (r: Validator)
        ensures
            r@ == self@,
    {
        let r = Validator {
            pubkey: clone_bytes(&self.pubkey),
            withdrawal_credentials: clone_bytes(&self.withdrawal_credentials),
            effective_balance: self.effective_balance,
            slashed: self.slashed,
            activation_eligibility_epoch: self.activation_eligibility_epoch,
            activation_epoch: self.activation_epoch,
            exit_epoch: self.exit_epoch,
            withdrawable_epoch: self.withdrawable_epoch,
        };
        proof {
            assert(r@ =~= self@);
        }
        r
    }

    /// Active exactly from its activation epoch until its exit epoch.
    pub fn is_active_at(&self, epoch: u64) -> (r: bool)
        ensures
            r == is_active(self@, epoch),
    {
        self.activation_epoch <= epoch && epoch < self.exit_epoch
    }

    /// May still be punished for a violation: not yet slashed, activated, and
    /// not yet withdrawable.
    pub fn is_slashable_at(&self, epoch: u64) -> (r: bool)
        ensures
            r == is_slashable(self@, epoch),
    {
        !self.slashed && self.activation_epoch <= epoch && epoch < self.withdrawable_epoch
    }
}

/// Active exactly from the activation epoch until the exit epoch.
pub open spec fn is_active(v: ValidatorView, epoch: u64) -> bool {
    v.activation_epoch <= epoch < v.exit_epoch
}

/// Not yet slashed, activated, and not yet withdrawable.
pub open spec fn is_slashable(v: ValidatorView, epoch: u64) -> bool {
    !v.slashed && v.activation_epoch <= epoch < v.withdrawable_epoch
}

/// The canonical byte image of a validator record: the fields laid out in
/// order, numbers little-endian, the slashed flag one byte.
pub open spec fn validator_bytes(v: ValidatorView) -> Seq<u8> {
    v.pubkey + v.withdrawal_credentials + u64_le_bytes(v.effective_balance) + seq![
        if v.slashed {
            1u8
        } else {
            0u8
        },
    ] + u64_le_bytes(v.activation_eligibility_epoch) + u64_le_bytes(v.activation_epoch)
        + u64_le_bytes(v.exit_epoch) + u64_le_bytes(v.withdrawable_epoch)
}

/// The record's hash-tree root: the digest of its canonical byte image.
pub open spec fn validator_root(v: ValidatorView) -> Seq<u8> {
    sha256_of(validator_bytes(v))
}

/// The canonical byte image of a validator record, as a value.
pub fn encode_validator(v: &Validator) -> (r: Vec<u8>)
    ensures
        r@ == validator_bytes(v@),
{
    let mut out = clone_bytes(&v.pubkey);
    out = concat(out, clone_bytes(&v.withdrawal_credentials));
    out = concat(out, u64_le_bytes_exec(v.effective_balance));
    out.push(if v.slashed { 1u8 } else { 0u8 });
    out = concat(out, u64_le_bytes_exec(v.activation_eligibility_epoch));
    out = concat(out, u64_le_bytes_exec(v.activation_epoch));
    out = concat(out, u64_le_bytes_exec(v.exit_epoch));
    out = concat(out, u64_le_bytes_exec(v.withdrawable_epoch));
    proof {
        assert(out@ =~= validator_bytes(v@));
    }
    out
}

/// The record's hash-tree root, as a value.
pub fn compute_validator_root(v: &Validator) -> (r: Hash256)
    ensures
        r@ == validator_root(v@),
        r@.len() == 32,
{
    let bytes = encode_validator(v);
    sha256(bytes.as_slice())
}

} // verus!
