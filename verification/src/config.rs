//! The protocol constants: a fixed, versioned bag injected into every
//! processor call and never mutated during a transition.

use vstd::prelude::*;

verus! {

/// All protocol constants a transition reads.
#[derive(Clone, Copy)]
pub struct ChainSpec {
    pub slots_per_epoch: u64,
    pub epochs_per_historical_vector: u64,
    pub slots_per_historical_root: u64,
    pub slots_per_eth1_voting_period: u64,
    pub min_attestation_inclusion_delay: u64,
    pub max_effective_balance: u64,
    pub effective_balance_increment: u64,
    pub ejection_balance: u64,
    pub whistleblower_reward_quotient: u64,
    pub proposer_reward_quotient: u64,
    pub min_slashing_penalty_quotient: u64,
    pub base_reward_quotient: u64,
    pub inactivity_penalty_quotient: u64,
    pub min_epochs_to_inactivity_penalty: u64,
    pub min_validator_withdrawability_delay: u64,
    pub activation_exit_delay: u64,
    pub persistent_committee_period: u64,
    pub min_per_epoch_churn_limit: u64,
    pub churn_limit_quotient: u64,
    pub epochs_per_slashings_vector: u64,
    pub deposit_contract_tree_depth: u64,
}

impl ChainSpec {
    /// The constants are usable: divisors positive, the ring buffers
    /// non-empty, the deposit tree depth within machine reach, and the
    /// lookahead small enough that epoch arithmetic stays in range.
    pub open spec fn wf(self) -> bool {
        &&& self.slots_per_epoch >= 1
        &&& self.epochs_per_historical_vector >= 1
        &&& self.slots_per_historical_root >= 1
        &&& self.slots_per_eth1_voting_period >= 1
        &&& self.min_attestation_inclusion_delay >= 1
        &&& self.effective_balance_increment >= 1
        &&& self.whistleblower_reward_quotient >= 1
        &&& self.proposer_reward_quotient >= 1
        &&& self.min_slashing_penalty_quotient >= 1
        &&& self.base_reward_quotient >= 1
        &&& self.inactivity_penalty_quotient >= 1
        &&& self.churn_limit_quotient >= 1
        &&& self.epochs_per_slashings_vector >= 1
        &&& self.deposit_contract_tree_depth <= 62
        &&& self.activation_exit_delay <= 0xFFFF_FFFF
        &&& self.min_validator_withdrawability_delay <= 0xFFFF_FFFF
        &&& self.epochs_per_slashings_vector <= 0xFFFF_FFFF
    }

    /// The minimal test configuration.
    pub open spec fn minimal_spec() -> ChainSpec {
        ChainSpec {
            slots_per_epoch: 8,
            epochs_per_historical_vector: 64,
            slots_per_historical_root: 64,
            slots_per_eth1_voting_period: 16,
            min_attestation_inclusion_delay: 1,
            max_effective_balance: 32_000_000_000,
            effective_balance_increment: 1_000_000_000,
            ejection_balance: 16_000_000_000,
            whistleblower_reward_quotient: 512,
            proposer_reward_quotient: 8,
            min_slashing_penalty_quotient: 32,
            base_reward_quotient: 2048,
            inactivity_penalty_quotient: 33_554_432,
            min_epochs_to_inactivity_penalty: 4,
            min_validator_withdrawability_delay: 256,
            activation_exit_delay: 4,
            persistent_committee_period: 2048,
            min_per_epoch_churn_limit: 4,
            churn_limit_quotient: 65536,
            epochs_per_slashings_vector: 64,
            deposit_contract_tree_depth: 32,
        }
    }

    /// The minimal test configuration, as a value.
    pub fn minimal() -> (r: ChainSpec)
        ensures
            r == ChainSpec::minimal_spec(),
            r.wf(),
    {
        ChainSpec {
            slots_per_epoch: 8,
            epochs_per_historical_vector: 64,
            slots_per_historical_root: 64,
            slots_per_eth1_voting_period: 16,
            min_attestation_inclusion_delay: 1,
            max_effective_balance: 32_000_000_000,
            effective_balance_increment: 1_000_000_000,
            ejection_balance: 16_000_000_000,
            whistleblower_reward_quotient: 512,
            proposer_reward_quotient: 8,
            min_slashing_penalty_quotient: 32,
            base_reward_quotient: 2048,
            inactivity_penalty_quotient: 33_554_432,
            min_epochs_to_inactivity_penalty: 4,
            min_validator_withdrawability_delay: 256,
            activation_exit_delay: 4,
            persistent_committee_period: 2048,
            min_per_epoch_churn_limit: 4,
            churn_limit_quotient: 65536,
            epochs_per_slashings_vector: 64,
            deposit_contract_tree_depth: 32,
        }
    }
}

} // verus!
