#![allow(unused_imports, unused_mut, unused_variables)]
use platarium_core::asset::Asset;
use platarium_core::block_assembly::{assemble_block, compute_block_hash_inner, compute_merkle_root, max_block_size_bytes, max_block_time_sec, max_transactions_per_block, process_l2_block_votes, apply_l2_block_penalties, BlockConfirmationResult, L2_CONFIRM_THRESHOLD_PCT};
use platarium_core::confirmation::{apply_l1_penalties, confirm_transaction_l1, process_l1_confirmation, verify_tx_for_l1, ConfirmationResult, Vote, L1_CONFIRM_THRESHOLD_PCT};
use platarium_core::engine::Core;
use platarium_core::error::PlatariumError;
use platarium_core::execution::{ExecutionContext, ExecutionLogic, ExecutionResult};
use platarium_core::fee::{calculate_fee, calculate_fee_from_load, calculate_fee_from_load_micro_plp, calculate_fee_micro_plp, calculate_load_multiplier, fee_to_plp_string, MicroPLP, BASE_TX_FEE_MICRO_PLP, MAX_BATCH_SIZE, MICRO_PLP_PER_PLP, MULTIPLIER_1X, MULTIPLIER_2X, MULTIPLIER_3X, MULTIPLIER_5X};
use platarium_core::mempool::Mempool;
use platarium_core::node_registry::{Node, NodeId, NodeRegistry, NodeStatus, SCORE_SCALE};
use platarium_core::slashing::{apply_slash, apply_slash_batch, apply_slash_with_threshold, penalty_amounts, SlashingReason, SUSPENSION_THRESHOLD};
use platarium_core::state::{Address, SnapshotableState, State, StateSnapshot, TREASURY_ADDRESS};
use platarium_core::transaction::{Transaction, TransactionValidationError, MIN_FEE_UPLP};
use platarium_core::validator_selection::{compute_seed, compute_seed_l2, select_count, select_validators, select_validators_l2, selection_percent_from_load, selection_percent_from_load_l2};

#[test]
fn test_new_mempool() {
    let mut mempool = Mempool::new();
    assert!(mempool.is_empty());
    assert_eq!(mempool.len(), 0);
}

#[test]
fn test_add_transaction() {
    let mut mempool = Mempool::new();
    let tx = Transaction::new(
        "sender".to_string(),
        "receiver".to_string(),
        Asset::PLP,
        100,
        1,
        0,
        Vec::new(),
        Vec::new(),
        "sig_main".to_string(),
        "sig_derived".to_string(),
    ).unwrap();
    let result = mempool.add_transaction(tx.clone());
    assert!(result.is_ok());
    
    assert_eq!(mempool.len(), 1);
    assert!(!mempool.is_empty());
    assert!(mempool.contains(&tx.hash));
}

#[test]
fn test_add_transaction_duplicate() {
    let mut mempool = Mempool::new();
    let tx = Transaction::new(
        "sender".to_string(),
        "receiver".to_string(),
        Asset::PLP,
        100,
        1,
        0,
        Vec::new(),
        Vec::new(),
        "sig_main".to_string(),
        "sig_derived".to_string(),
    ).unwrap();
    // Add first time
    let result1 = mempool.add_transaction(tx.clone());
    assert!(result1.is_ok());
    
    // Try to add duplicate
    let result2 = mempool.add_transaction(tx);
    assert!(result2.is_err());
    
    if let Err(PlatariumError::State(msg)) = result2 {
        assert!(msg.contains("Duplicate transaction"));
    } else {
        panic!("Expected MempoolError::DuplicateTransaction");
    }
    
    // Should still have only one transaction
    assert_eq!(mempool.len(), 1);
}

#[test]
fn test_get_transaction() {
    let mut mempool = Mempool::new();
    let tx = Transaction::new(
        "sender".to_string(),
        "receiver".to_string(),
        Asset::PLP,
        100,
        1,
        0,
        Vec::new(),
        Vec::new(),
        "sig_main".to_string(),
        "sig_derived".to_string(),
    ).unwrap();
    mempool.add_transaction(tx.clone()).unwrap();
    
    // Get existing transaction
    let retrieved = mempool.get_transaction(&tx.hash);
    assert!(retrieved.is_some());
    assert_eq!(retrieved.unwrap().hash, tx.hash);
    
    // Get non-existent transaction
    let not_found = mempool.get_transaction("nonexistent_hash");
    assert!(not_found.is_none());
}

#[test]
fn test_remove_transaction() {
    let mut mempool = Mempool::new();
    let tx = Transaction::new(
        "sender".to_string(),
        "receiver".to_string(),
        Asset::PLP,
        100,
        1,
        0,
        Vec::new(),
        Vec::new(),
        "sig_main".to_string(),
        "sig_derived".to_string(),
    ).unwrap();
    mempool.add_transaction(tx.clone()).unwrap();
    assert_eq!(mempool.len(), 1);
    // Remove transaction
    let removed = mempool.remove_transaction(&tx.hash);
    assert!(removed);
    assert_eq!(mempool.len(), 0);
    assert!(!mempool.contains(&tx.hash));
    
    // Try to remove again (should return false)
    let removed_again = mempool.remove_transaction(&tx.hash);
    assert!(!removed_again);
}

#[test]
fn test_remove_transactions() {
    let mut mempool = Mempool::new();
    
    let tx1 = Transaction::new(
        "sender1".to_string(),
        "receiver1".to_string(),
        Asset::PLP,
        100,
        1,
        0,
        Vec::new(),
        Vec::new(),
        "sig_main1".to_string(),
        "sig_derived1".to_string(),
    ).unwrap();
    let tx2 = Transaction::new(
        "sender2".to_string(),
        "receiver2".to_string(),
        Asset::PLP,
        200,
        1,
        0,
        Vec::new(),
        Vec::new(),
        "sig_main2".to_string(),
        "sig_derived2".to_string(),
    ).unwrap();
    mempool.add_transaction(tx1.clone()).unwrap();
    mempool.add_transaction(tx2.clone()).unwrap();
    assert_eq!(mempool.len(), 2);
    mempool.remove_transactions(&[tx1.hash.clone(), tx2.hash.clone()]);
    assert_eq!(mempool.len(), 0);
}

#[test]
fn test_get_all_transactions() {
    let mut mempool = Mempool::new();
    
    let tx1 = Transaction::new(
        "sender1".to_string(),
        "receiver1".to_string(),
        Asset::PLP,
        100,
        1,
        0,
        Vec::new(),
        Vec::new(),
        "sig_main1".to_string(),
        "sig_derived1".to_string(),
    ).unwrap();
    let tx2 = Transaction::new(
        "sender2".to_string(),
        "receiver2".to_string(),
        Asset::PLP,
        200,
        1,
        0,
        Vec::new(),
        Vec::new(),
        "sig_main2".to_string(),
        "sig_derived2".to_string(),
    ).unwrap();
    mempool.add_transaction(tx1.clone()).unwrap();
    mempool.add_transaction(tx2.clone()).unwrap();
    let all_txs = mempool.get_all_transactions();
    assert_eq!(all_txs.len(), 2);
    
    // Verify both transactions are present
    let hashes: Vec<String> = all_txs.iter().map(|tx| tx.hash.clone()).collect();
    assert!(hashes.contains(&tx1.hash));
    assert!(hashes.contains(&tx2.hash));
}

#[test]
fn test_clear() {
    let mut mempool = Mempool::new();
    
    let tx = Transaction::new(
        "sender".to_string(),
        "receiver".to_string(),
        Asset::PLP,
        100,
        1,
        0,
        Vec::new(),
        Vec::new(),
        "sig_main".to_string(),
        "sig_derived".to_string(),
    ).unwrap();
    mempool.add_transaction(tx.clone()).unwrap();
    assert_eq!(mempool.len(), 1);
    mempool.clear();
    assert_eq!(mempool.len(), 0);
    assert!(mempool.is_empty());
    assert!(!mempool.contains(&tx.hash));
}

#[test]
fn test_multiple_transactions_different_hashes() {
    let mut mempool = Mempool::new();
    
    // Create multiple transactions with different data (different hashes)
    for i in 0..5 {
        let tx = Transaction::new(
            format!("sender{}", i),
            format!("receiver{}", i),
            Asset::PLP,
            100 + i as u128,
            1,
            i as u64,
            Vec::new(),
            Vec::new(),
            format!("sig_main{}", i),
            format!("sig_derived{}", i),
        ).unwrap();
        mempool.add_transaction(tx).unwrap();
    }
    
    assert_eq!(mempool.len(), 5);
    assert!(!mempool.is_empty());
}

// --- Anti-starvation / fairness tests (no system time, no randomness) ---

#[test]
fn test_arrival_order_influences_selection() {
    let mut mempool = Mempool::new();
    let tx_first = Transaction::new(
        "zzz_sender".to_string(),
        "zzz_receiver".to_string(),
        Asset::PLP,
        100,
        1,
        0,
        Vec::new(),
        Vec::new(),
        "sig_z".to_string(),
        "sig_z".to_string(),
    )
    .unwrap();
    let tx_second = Transaction::new(
        "aaa_sender".to_string(),
        "aaa_receiver".to_string(),
        Asset::PLP,
        200,
        1,
        0,
        Vec::new(),
        Vec::new(),
        "sig_a".to_string(),
        "sig_a".to_string(),
    )
    .unwrap();
    assert_ne!(tx_first.hash, tx_second.hash);
    let (higher_hash, lower_hash) = if tx_first.hash > tx_second.hash {
        (tx_first.clone(), tx_second.clone())
    } else {
        (tx_second.clone(), tx_first.clone())
    };
    mempool.add_transaction(higher_hash.clone()).unwrap();
    mempool.add_transaction(lower_hash.clone()).unwrap();
    let batch = mempool.get_all_transactions();
    assert_eq!(batch.len(), 2);
    assert_eq!(batch[0].hash, higher_hash.hash);
    assert_eq!(batch[1].hash, lower_hash.hash);
}

#[test]
fn test_late_hash_not_starved() {
    let mut mempool = Mempool::new();
    let tx_late = Transaction::new(
        "zzz_late".to_string(),
        "zzz_recv".to_string(),
        Asset::PLP,
        1,
        1,
        0,
        Vec::new(),
        Vec::new(),
        "sig".to_string(),
        "sig".to_string(),
    )
    .unwrap();
    mempool.add_transaction(tx_late.clone()).unwrap();
    for i in 0..5 {
        let tx = Transaction::new(
            format!("aaa_early_{}", i),
            format!("aaa_r_{}", i),
            Asset::PLP,
            1,
            1,
            i as u64,
            Vec::new(),
            Vec::new(),
            "sig".to_string(),
            "sig".to_string(),
        )
        .unwrap();
        mempool.add_transaction(tx).unwrap();
    }
    let batch = mempool.get_all_transactions();
    assert_eq!(batch.len(), 6);
    assert_eq!(batch[0].hash, tx_late.hash);
}

#[test]
fn test_same_tx_set_same_execution_order() {
    let mut mempool = Mempool::new();
    let mut txs = Vec::new();
    for i in 0..4 {
        let tx = Transaction::new(
            format!("s{}", i),
            format!("r{}", i),
            Asset::PLP,
            1,
            1,
            i as u64,
            Vec::new(),
            Vec::new(),
            "sig".to_string(),
            "sig".to_string(),
        )
        .unwrap();
        mempool.add_transaction(tx.clone()).unwrap();
        txs.push(tx);
    }
    let a = mempool.get_all_transactions();
    let b = mempool.get_all_transactions();
    assert_eq!(a.len(), b.len());
    for (i, (xa, xb)) in a.iter().zip(b.iter()).enumerate() {
        assert_eq!(xa.hash, xb.hash, "index {} differs", i);
    }
}
