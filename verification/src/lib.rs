//! Consensus state-transition core of a beacon-chain client.
//!
//! The crate provides the deterministic function from a chain state and a
//! candidate block to the next valid state, together with the two hash
//! accumulator structures that make it tractable: a right-sparse Merkle tree
//! for authenticating deposits, and a persistent, structurally shared binary
//! tree holding the validator registry.

pub mod block_processing;
pub mod builder;
pub mod config;
pub mod epoch_processing;
pub mod errors;
pub mod fork_choice;
pub mod hashing;
pub mod helpers;
pub mod merkle;
pub mod registry;
pub mod state;
pub mod store;
pub mod transition;
pub mod types;
pub mod validator;

pub use hashing::Hash256;
