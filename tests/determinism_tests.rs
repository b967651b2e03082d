#![allow(unused_imports, unused_mut, unused_variables)]
use platarium_core::asset::Asset;
use platarium_core::block_assembly::{assemble_block, compute_block_hash_inner, compute_merkle_root, max_block_size_bytes, max_block_time_sec, max_transactions_per_block, process_l2_block_votes, apply_l2_block_penalties, BlockConfirmationResult, L2_CONFIRM_THRESHOLD_PCT};
use platarium_core::confirmation::{apply_l1_penalties, confirm_transaction_l1, process_l1_confirmation, verify_tx_for_l1, ConfirmationResult, Vote, L1_CONFIRM_THRESHOLD_PCT};
use platarium_core::engine::Core;
use platarium_core::error::PlatariumError;
use platarium_core::execution::{ExecutionContext, ExecutionLogic, ExecutionResult};
use platarium_core::fee::{calculate_fee, calculate_fee_from_load, calculate_fee_from_load_micro_plp, calculate_fee_micro_plp, calculate_load_multiplier, fee_to_plp_string, MicroPLP, BASE_TX_FEE_MICRO_PLP, MAX_BATCH_SIZE, MICRO_PLP_PER_PLP, MULTIPLIER_1X, MULTIPLIER_2X, MULTIPLIER_3X, MULTIPLIER_5X};
use platarium_core::mempool::Mempool;
use platarium_core::node_registry::{Node, NodeId, NodeRegistry, NodeStatus, SCORE_SCALE};
use platarium_core::slashing::{apply_slash, apply_slash_batch, apply_slash_with_threshold, penalty_amounts, SlashingReason, SUSPENSION_THRESHOLD};
use platarium_core::state::{Address, SnapshotableState, State, StateSnapshot, TREASURY_ADDRESS};
use platarium_core::transaction::{Transaction, TransactionValidationError, MIN_FEE_UPLP};
use platarium_core::validator_selection::{compute_seed, compute_seed_l2, select_count, select_validators, select_validators_l2, selection_percent_from_load, selection_percent_from_load_l2};

#[test]
fn test_determinism_documentation() {
    // This test documents that determinism requirements are enforced
    // All execution paths must follow determinism rules:
    // 1. No float arithmetic
    // 2. No RNG
    // 3. No system time
    // 4. No unsorted HashMap iteration
    
    // This test passes if the module compiles
    // The actual enforcement is through code review and runtime checks
    assert!(true);
}

#[test]
fn test_fee_path_no_float() {
    // Verify fee calculation path uses integer arithmetic only
    // This is a property test: same inputs → same outputs
    
    let fee1 = calculate_fee_from_load(500);
    let fee2 = calculate_fee_from_load(500);
    let fee3 = calculate_fee_from_load(500);
    
    // All should be identical (deterministic, no float precision issues)
    assert_eq!(fee1, fee2);
    assert_eq!(fee2, fee3);
    assert_eq!(fee1, 2); // 50% load → 2x multiplier → 2 μPLP
    
    // Verify integer arithmetic (no float)
    assert_eq!(fee1, 2u64); // Explicitly u64, not f64
}

#[test]
fn test_fee_path_no_hashmap_iteration() {
    // Verify fee path does not use HashMap iteration
    // Fee calculation uses direct arithmetic, not HashMap iteration
    
    // This test verifies that fee calculation is O(1) and doesn't iterate
    // over any HashMap (which would be non-deterministic if unsorted)
    
    // Fee calculation should be fast and deterministic
    let fee = calculate_fee_from_load(0);
    assert_eq!(fee, 1);
    
    // No HashMap iteration in fee path - verified by code review
    // This test documents that requirement
}

#[test]
fn test_transaction_hash_determinism() {
    // Verify transaction hash is deterministic
    // Same transaction data → same hash (always)
    
    let reads1 = Vec::from(["a".to_string(), "b".to_string()]);
    let reads2 = Vec::from(["b".to_string(), "a".to_string()]);
    
    let tx1 = Transaction::new(
        "sender".to_string(),
        "receiver".to_string(),
        Asset::PLP,
        100,
        1,
        0,
        reads1,
        Vec::new(),
        "sig1".to_string(),
        "sig2".to_string(),
    ).unwrap();
    let tx2 = Transaction::new(
        "sender".to_string(),
        "receiver".to_string(),
        Asset::PLP,
        100,
        1,
        0,
        reads2,
        Vec::new(),
        "sig1".to_string(),
        "sig2".to_string(),
    ).unwrap();
    // Hash same regardless of HashSet order (sorted before hashing)
    assert_eq!(tx1.hash, tx2.hash);
}

#[test]
fn test_state_snapshot_determinism() {
    // Verify state snapshot operations are deterministic
    // Same state → same snapshot → same get_all_balances order
    
    let mut state = State::new();
    state.set_balance(&"zebra".to_string(), 100);
    state.set_balance(&"alpha".to_string(), 200);
    state.set_balance(&"beta".to_string(), 300);
    
    let snapshot = state.snapshot();
    let balances1 = snapshot.get_all_balances();
    let balances2 = snapshot.get_all_balances();
    
    // Should return same order (sorted by address)
    assert_eq!(balances1, balances2);
    assert_eq!(balances1[0].0, "alpha");
    assert_eq!(balances1[1].0, "beta");
    assert_eq!(balances1[2].0, "zebra");
}

#[test]
fn test_mempool_determinism() {
    // Verify mempool get_all_transactions returns deterministic order
    // Same mempool → same transaction order (sorted by arrival_index, then hash)
    
    let mut mempool = Mempool::new();
    
    let tx1 = Transaction::new(
        "sender1".to_string(),
        "receiver1".to_string(),
        Asset::PLP,
        100,
        1,
        0,
        Vec::new(),
        Vec::new(),
        "sig1".to_string(),
        "sig1".to_string(),
    ).unwrap();
    let tx2 = Transaction::new(
        "sender2".to_string(),
        "receiver2".to_string(),
        Asset::PLP,
        200,
        1,
        0,
        Vec::new(),
        Vec::new(),
        "sig2".to_string(),
        "sig2".to_string(),
    ).unwrap();
    mempool.add_transaction(tx1.clone()).unwrap();
    mempool.add_transaction(tx2.clone()).unwrap();
    let txs1 = mempool.get_all_transactions();
    let txs2 = mempool.get_all_transactions();
    
    // Same batch → same order (deterministic)
    assert_eq!(txs1.len(), txs2.len());
    assert_eq!(txs1[0].hash, txs2[0].hash);
    assert_eq!(txs1[1].hash, txs2[1].hash);
}

#[test]
fn test_no_float_types_in_execution() {
    // Verify that no float types are used in execution paths
    // This is a compile-time check (if this compiles, no float types used)
    
    // All fee calculations use integer types
    let fee: u64 = calculate_fee_from_load(500);
    assert_eq!(fee, 2);
    
    // State operations use integer types
    let mut state = State::new();
    state.set_balance(&"addr".to_string(), 1000u128);
    let balance: u128 = state.get_balance(&"addr".to_string());
    assert_eq!(balance, 1000);
    
    // No float types (f32, f64) are used in execution paths
    // This test documents that requirement
}
