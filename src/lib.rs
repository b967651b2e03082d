//! The deterministic execution and consensus core of a PLP node: canonical
//! transactions and their hashes, an authoritative balance state with
//! snapshots, a fair mempool, a load-adaptive fee schedule, validator scoring,
//! selection and slashing, two-layer vote aggregation and block assembly; with
//! the key derivation and message signing that accounts use.

pub mod arith;
pub mod asset;
pub mod block_assembly;
pub mod confirmation;
pub mod encoding;
pub mod engine;
pub mod error;
pub mod execution;
pub mod fee;
pub mod keys;
pub mod ledger;
pub mod mempool;
pub mod node_registry;
pub mod order;
pub mod signature;
pub mod signing;
pub mod slashing;
pub mod state;
pub mod transaction;
pub mod validator_selection;
