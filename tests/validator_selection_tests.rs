#![allow(unused_imports, unused_mut, unused_variables)]
use platarium_core::asset::Asset;
use platarium_core::block_assembly::{assemble_block, compute_block_hash_inner, compute_merkle_root, max_block_size_bytes, max_block_time_sec, max_transactions_per_block, process_l2_block_votes, apply_l2_block_penalties, BlockConfirmationResult, L2_CONFIRM_THRESHOLD_PCT};
use platarium_core::confirmation::{apply_l1_penalties, confirm_transaction_l1, process_l1_confirmation, verify_tx_for_l1, ConfirmationResult, Vote, L1_CONFIRM_THRESHOLD_PCT};
use platarium_core::engine::Core;
use platarium_core::error::PlatariumError;
use platarium_core::execution::{ExecutionContext, ExecutionLogic, ExecutionResult};
use platarium_core::fee::{calculate_fee, calculate_fee_from_load, calculate_fee_from_load_micro_plp, calculate_fee_micro_plp, calculate_load_multiplier, fee_to_plp_string, MicroPLP, BASE_TX_FEE_MICRO_PLP, MAX_BATCH_SIZE, MICRO_PLP_PER_PLP, MULTIPLIER_1X, MULTIPLIER_2X, MULTIPLIER_3X, MULTIPLIER_5X};
use platarium_core::mempool::Mempool;
use platarium_core::node_registry::{Node, NodeId, NodeRegistry, NodeStatus, SCORE_SCALE};
use platarium_core::slashing::{apply_slash, apply_slash_batch, apply_slash_with_threshold, penalty_amounts, SlashingReason, SUSPENSION_THRESHOLD};
use platarium_core::state::{Address, SnapshotableState, State, StateSnapshot, TREASURY_ADDRESS};
use platarium_core::transaction::{Transaction, TransactionValidationError, MIN_FEE_UPLP};
use platarium_core::validator_selection::{SELECT_PCT_10, SELECT_PCT_15, SELECT_PCT_20, SELECT_PCT_25, compute_seed, compute_seed_l2, select_count, select_validators, select_validators_l2, selection_percent_from_load, selection_percent_from_load_l2};

#[test]
fn test_selection_percent_tiers() {
    // Low load → most validators (25%)
    assert_eq!(selection_percent_from_load(20, 100).unwrap(), SELECT_PCT_25);
    assert_eq!(selection_percent_from_load(29, 100).unwrap(), SELECT_PCT_25);
    // < 60% → 20%
    assert_eq!(selection_percent_from_load(30, 100).unwrap(), SELECT_PCT_20);
    assert_eq!(selection_percent_from_load(59, 100).unwrap(), SELECT_PCT_20);
    // < 85% → 15%
    assert_eq!(selection_percent_from_load(60, 100).unwrap(), SELECT_PCT_15);
    assert_eq!(selection_percent_from_load(84, 100).unwrap(), SELECT_PCT_15);
    // High load → fewest validators (10%)
    assert_eq!(selection_percent_from_load(85, 100).unwrap(), SELECT_PCT_10);
    assert_eq!(selection_percent_from_load(100, 100).unwrap(), SELECT_PCT_10);
}

#[test]
fn test_selection_percent_zero_capacity() {
    assert!(selection_percent_from_load(10, 0).is_err());
}

#[test]
fn test_select_count() {
    assert_eq!(select_count(100, 10), 10);
    assert_eq!(select_count(100, 15), 15);
    assert_eq!(select_count(100, 25), 25);
    assert_eq!(select_count(10, 10), 1);
    assert_eq!(select_count(1, 10), 1);
    assert_eq!(select_count(0, 10), 0);
}

#[test]
fn test_seed_deterministic() {
    let s1 = compute_seed(1, b"entropy");
    let s2 = compute_seed(1, b"entropy");
    assert_eq!(s1, s2);
    let s3 = compute_seed(2, b"entropy");
    assert_ne!(s1, s3);
}

#[test]
fn test_select_validators_deterministic() {
    let mut reg = NodeRegistry::new();
    reg.register("n1".into(), "pk1".into(), 1000, 10).unwrap();
    reg.register("n2".into(), "pk2".into(), 1000, 10).unwrap();
    reg.register("n3".into(), "pk3".into(), 1000, 10).unwrap();
    reg.register("n4".into(), "pk4".into(), 1000, 10).unwrap();
    reg.register("n5".into(), "pk5".into(), 1000, 10).unwrap();

    let a = select_validators(&reg, 10, 100, 1, b"entropy").unwrap();
    let b = select_validators(&reg, 10, 100, 1, b"entropy").unwrap();
    assert_eq!(a, b);

    let c = select_validators(&reg, 50, 100, 1, b"entropy").unwrap();
    assert!(c.len() <= a.len()); // higher load (50%) → fewer validators
}

#[test]
fn test_select_validators_adaptive_n() {
    let mut reg = NodeRegistry::new();
    for i in 0..20 {
        reg.register(format!("n{}", i), format!("pk{}", i), 1000, 10).unwrap();
    }
    let low_load = select_validators(&reg, 10, 100, 1, b"").unwrap();
    let high_load = select_validators(&reg, 90, 100, 1, b"").unwrap();
    assert!(high_load.len() <= low_load.len()); // higher load → fewer validators
}
