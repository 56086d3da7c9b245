//! The error taxonomy: every rejected block names the processor and the check
//! that failed, and arithmetic that would wrap is reported, never wrapped.

use vstd::prelude::*;

verus! {

/// Why a block-body operation was rejected.
#[derive(Debug, Clone, Copy, PartialEq, Eq, Structural)]
pub enum BlockProcessingError {
    HeaderSlotMismatch,
    HeaderParentRootMismatch,
    HeaderProposerUnknown,
    HeaderProposerSlashed,
    HeaderSignatureInvalid,
    RandaoSignatureInvalid,
    ProposerSlashingUnknownProposer,
    ProposerSlashingSlotMismatch,
    ProposerSlashingHeadersIdentical,
    ProposerSlashingNotSlashable,
    ProposerSlashingSignatureInvalid,
    AttesterSlashingNotConflicting,
    AttesterSlashingInvalidAttestation,
    AttesterSlashingNoneSlashed,
    AttestationBadTargetEpoch,
    AttestationBadSource,
    AttestationBadInclusionDelay,
    AttestationBadBits,
    AttestationSignatureInvalid,
    DepositCountExhausted,
    DepositBadProof,
    ExitUnknownValidator,
    ExitNotActive,
    ExitAlreadyInitiated,
    ExitFutureEpoch,
    ExitTooYoung,
    ExitSignatureInvalid,
    TransferUnknownValidator,
    TransferBadSlot,
    TransferInsufficientBalance,
    TransferNotWithdrawable,
    TransferSignatureInvalid,
    NoProposer,
    RegistryFull,
    ArithmeticOverflow,
}

/// Why advancing the clock failed.
#[derive(Debug, Clone, Copy, PartialEq, Eq, Structural)]
pub enum SlotProcessingError {
    BlockSlotBehindState,
    SlotOutOfRange,
}

/// Why a whole transition failed: the slot rule, or the first operation-level
/// error met.
#[derive(Debug, Clone, Copy, PartialEq, Eq, Structural)]
pub enum StateTransitionError {
    SlotProcessing(SlotProcessingError),
    BlockProcessing(BlockProcessingError),
}

} // verus!
