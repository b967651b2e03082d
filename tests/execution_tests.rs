#![allow(unused_imports, unused_mut, unused_variables)]
use platarium_core::asset::Asset;
use platarium_core::block_assembly::{assemble_block, compute_block_hash_inner, compute_merkle_root, max_block_size_bytes, max_block_time_sec, max_transactions_per_block, process_l2_block_votes, apply_l2_block_penalties, BlockConfirmationResult, L2_CONFIRM_THRESHOLD_PCT};
use platarium_core::confirmation::{apply_l1_penalties, confirm_transaction_l1, process_l1_confirmation, verify_tx_for_l1, ConfirmationResult, Vote, L1_CONFIRM_THRESHOLD_PCT};
use platarium_core::engine::Core;
use platarium_core::error::PlatariumError;
use platarium_core::execution::{ExecutionContext, ExecutionLogic, ExecutionResult};
use platarium_core::fee::{calculate_fee, calculate_fee_from_load, calculate_fee_from_load_micro_plp, calculate_fee_micro_plp, calculate_load_multiplier, fee_to_plp_string, MicroPLP, BASE_TX_FEE_MICRO_PLP, MAX_BATCH_SIZE, MICRO_PLP_PER_PLP, MULTIPLIER_1X, MULTIPLIER_2X, MULTIPLIER_3X, MULTIPLIER_5X};
use platarium_core::mempool::Mempool;
use platarium_core::node_registry::{Node, NodeId, NodeRegistry, NodeStatus, SCORE_SCALE};
use platarium_core::slashing::{apply_slash, apply_slash_batch, apply_slash_with_threshold, penalty_amounts, SlashingReason, SUSPENSION_THRESHOLD};
use platarium_core::state::{Address, SnapshotableState, State, StateSnapshot, TREASURY_ADDRESS};
use platarium_core::transaction::{Transaction, TransactionValidationError, MIN_FEE_UPLP};
use platarium_core::validator_selection::{compute_seed, compute_seed_l2, select_count, select_validators, select_validators_l2, selection_percent_from_load, selection_percent_from_load_l2};

#[test]
fn test_execution_context_production() {
    let ctx = ExecutionContext::Production;
    assert_eq!(ctx, ExecutionContext::Production);
}

#[test]
fn test_execution_context_simulation() {
    let ctx = ExecutionContext::Simulation;
    assert_eq!(ctx, ExecutionContext::Simulation);
}

#[test]
fn test_commit_production_allowed() {
    let result = ExecutionLogic::commit(ExecutionContext::Production);
    assert!(result.is_ok());
}

#[test]
fn test_commit_simulation_forbidden() {
    let result = ExecutionLogic::commit(ExecutionContext::Simulation);
    assert!(result.is_err());
    
    if let Err(PlatariumError::State(msg)) = result {
        assert!(msg.contains("Commit not allowed in simulation mode"));
    } else {
        panic!("Expected ExecutionError::CommitNotAllowedInSimulation");
    }
}

#[test]
fn test_validate_transaction() {
    let tx = Transaction::new(
        "sender".to_string(),
        "receiver".to_string(),
        Asset::PLP,
        100,
        1,
        0,
        Vec::new(),
        Vec::new(),
        "dummy_sig_main".to_string(),
        "dummy_sig_derived".to_string(),
    ).unwrap();
    
    // This will fail signature validation, but structure is correct
    let result = ExecutionLogic::validate_transaction(&tx);
    assert!(result.is_err());
}

#[test]
fn test_check_transaction_applicability() {
    let mut state = State::new();
    let sender = "sender".to_string();
    let receiver = "receiver".to_string();
    
    state.set_balance(&sender, 1000);
    state.set_uplp_balance(&sender, 10);
    state.set_nonce(&sender, 0);
    let _tx = Transaction::new(
        sender.clone(),
        receiver.clone(),
        Asset::PLP,
        100,
        1,
        0,
        Vec::new(),
        Vec::new(),
        "dummy_sig_main".to_string(),
        "dummy_sig_derived".to_string(),
    ).unwrap();
    // This will fail at signature validation in validate_transaction,
    // but check_applicability should pass (if we bypass validation)
    // Actually, we can't bypass it easily, so this test just checks the structure
    // The real test would need valid signatures
}

#[test]
fn test_simulate_equals_execute_plus_rollback() {
    // Test: simulate == execute + rollback
    // This test verifies that simulation produces the same result as
    // executing on a temporary state and then rolling back
    
    let mut state = State::new();
    let sender = "sender".to_string();
    let receiver = "receiver".to_string();
    
    // Set initial state
    state.set_balance(&sender, 1000);
    state.set_nonce(&sender, 0);
    
    // Create snapshot
    let snapshot = state.snapshot();
    
    // Create transaction
    let tx = Transaction::new(
        sender.clone(),
        receiver.clone(),
        Asset::PLP,
        100,
        1,
        0,
        Vec::new(),
        Vec::new(),
        "dummy_sig_main".to_string(),
        "dummy_sig_derived".to_string(),
    ).unwrap();
    let simulation_result = ExecutionLogic::simulate(&tx, &snapshot);
    
    // Verify simulation doesn't change initial state
    assert_eq!(state.get_balance(&sender), 1000);
    assert_eq!(state.get_nonce(&sender), 0);
    assert_eq!(state.get_balance(&receiver), 0);
    
    // Now test execute + rollback approach
    // Create temporary state from snapshot
    let mut temp_state = State::new();
    temp_state.restore(&snapshot);
    
    // Execute transaction on temporary state
    let execute_result = ExecutionLogic::execute_transaction(
        &mut temp_state,
        &tx,
        ExecutionContext::Simulation,
    );
    
    // Get final state from temp_state
    let execute_final_state = if execute_result.is_ok() {
        Some(temp_state.snapshot())
    } else {
        None
    };
    
    // Verify simulation result matches execute + rollback result
    // (Both should fail at signature validation, but structure should be same)
    assert_eq!(
        simulation_result.is_success(),
        execute_result.is_ok(),
        "Simulation result should match execute result"
    );
    
    // If both succeeded, final states should match
    if simulation_result.is_success() && execute_result.is_ok() {
        let sim_final = simulation_result.get_final_state().unwrap();
        let exec_final = execute_final_state.as_ref().unwrap();
        
        // Verify final states match
        assert_eq!(
            sim_final.get_balance(&sender),
            exec_final.get_balance(&sender),
            "Simulation final state should match execute final state"
        );
        assert_eq!(
            sim_final.get_balance(&receiver),
            exec_final.get_balance(&receiver),
            "Simulation final state should match execute final state"
        );
    }
    
    // Verify initial state unchanged (simulation doesn't modify global state)
    assert_eq!(state.get_balance(&sender), 1000);
    assert_eq!(state.get_nonce(&sender), 0);
}

#[test]
fn test_simulation_does_not_modify_state() {
    // Test: simulation не змінює state
    let mut state = State::new();
    let sender = "sender".to_string();
    let receiver = "receiver".to_string();
    
    state.set_balance(&sender, 1000);
    state.set_uplp_balance(&sender, 10);
    state.set_nonce(&sender, 5);
    state.set_balance(&receiver, 500);
    state.set_nonce(&receiver, 2);
    // Store initial state values
    let initial_sender_balance = state.get_balance(&sender);
    let initial_sender_nonce = state.get_nonce(&sender);
    let initial_receiver_balance = state.get_balance(&receiver);
    let initial_receiver_nonce = state.get_nonce(&receiver);
    
    // Create snapshot
    let snapshot = state.snapshot();
    
    let tx = Transaction::new(
        sender.clone(),
        receiver.clone(),
        Asset::PLP,
        100,
        1,
        5,
        Vec::new(),
        Vec::new(),
        "dummy_sig_main".to_string(),
        "dummy_sig_derived".to_string(),
    ).unwrap();
    for _ in 0..10 {
        let _result = ExecutionLogic::simulate(&tx, &snapshot);
        
        // Verify state unchanged after each simulation
        assert_eq!(
            state.get_balance(&sender),
            initial_sender_balance,
            "INVARIANT VIOLATION: Simulation modified global state (sender balance)"
        );
        assert_eq!(
            state.get_nonce(&sender),
            initial_sender_nonce,
            "INVARIANT VIOLATION: Simulation modified global state (sender nonce)"
        );
        assert_eq!(
            state.get_balance(&receiver),
            initial_receiver_balance,
            "INVARIANT VIOLATION: Simulation modified global state (receiver balance)"
        );
        assert_eq!(
            state.get_nonce(&receiver),
            initial_receiver_nonce,
            "INVARIANT VIOLATION: Simulation modified global state (receiver nonce)"
        );
        
        // Verify snapshot unchanged
        assert_eq!(
            snapshot.get_balance(&sender),
            initial_sender_balance,
            "INVARIANT VIOLATION: Simulation modified snapshot"
        );
    }
}

#[test]
fn test_simulation_deterministic_output() {
    // Test: deterministic output - same transaction + same snapshot → same result
    let mut state = State::new();
    let sender = "sender".to_string();
    let receiver = "receiver".to_string();
    
    state.set_balance(&sender, 1000);
    state.set_uplp_balance(&sender, 10);
    state.set_nonce(&sender, 0);
    let snapshot = state.snapshot();
    let tx = Transaction::new(
        sender.clone(),
        receiver.clone(),
        Asset::PLP,
        100,
        1,
        0,
        Vec::new(),
        Vec::new(),
        "dummy_sig_main".to_string(),
        "dummy_sig_derived".to_string(),
    ).unwrap();
    // Simulate multiple times
    let result1 = ExecutionLogic::simulate(&tx, &snapshot);
    let result2 = ExecutionLogic::simulate(&tx, &snapshot);
    let result3 = ExecutionLogic::simulate(&tx, &snapshot);
    
    // All results should be identical (deterministic)
    assert_eq!(
        result1.is_success(),
        result2.is_success(),
        "Simulation results should be deterministic (success status)"
    );
    assert_eq!(
        result2.is_success(),
        result3.is_success(),
        "Simulation results should be deterministic (success status)"
    );
    
    // If successful, final states should be identical
    if result1.is_success() {
        let final1 = result1.get_final_state().unwrap();
        let final2 = result2.get_final_state().unwrap();
        let final3 = result3.get_final_state().unwrap();
        
        assert_eq!(
            final1, final2,
            "Simulation final states should be identical (deterministic)"
        );
        assert_eq!(
            final2, final3,
            "Simulation final states should be identical (deterministic)"
        );
    } else {
        // If failed, error messages should be identical
        assert_eq!(
            result1.get_error(),
            result2.get_error(),
            "Simulation error messages should be identical (deterministic)"
        );
        assert_eq!(
            result2.get_error(),
            result3.get_error(),
            "Simulation error messages should be identical (deterministic)"
        );
    }
}

#[test]
fn test_execution_result_success() {
    let mut state = State::new();
    let snapshot = state.snapshot();
    
    let result = ExecutionResult::success(snapshot.clone());
    
    assert!(result.is_success());
    assert!(!result.is_failure());
    assert!(result.get_final_state().is_some());
    assert_eq!(result.get_final_state().unwrap(), &snapshot);
    assert!(result.get_error().is_none());
}

#[test]
fn test_execution_result_failure() {
    let error_msg = "Test error".to_string();
    let result = ExecutionResult::failure(error_msg.clone());
    
    assert!(!result.is_success());
    assert!(result.is_failure());
    assert!(result.get_final_state().is_none());
    assert_eq!(result.get_error(), Some(error_msg.as_str()));
}
