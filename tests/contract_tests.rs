use platarium_core::asset::Asset;
use platarium_core::block_assembly::{
    compute_block_hash_inner, compute_merkle_root, max_block_size_bytes, max_block_time_sec,
    max_transactions_per_block, process_l2_block_votes, BlockConfirmationResult,
};
use platarium_core::confirmation::{process_l1_confirmation, ConfirmationResult, Vote};
use platarium_core::engine::Core;
use platarium_core::error::PlatariumError;
use platarium_core::execution::{ExecutionContext, ExecutionLogic};
use platarium_core::fee::{calculate_fee_from_load, fee_to_plp_string};
use platarium_core::mempool::Mempool;
use platarium_core::node_registry::{NodeId, NodeRegistry, NodeStatus, SCORE_SCALE};
use platarium_core::signature::verify_signature;
use platarium_core::slashing::{apply_slash, apply_slash_batch, SlashingReason};
use platarium_core::state::State;
use platarium_core::transaction::{Transaction, TransactionValidationError};
use platarium_core::validator_selection::{
    compute_seed, select_count, select_validators, select_validators_l2, selection_percent_from_load,
};
use sha2::Digest;

fn plain_tx(from: &str, to: &str, amount: u128, fee: u128, nonce: u64, reads: Vec<String>) -> Transaction {
    Transaction::new(
        from.to_string(),
        to.to_string(),
        Asset::PLP,
        amount,
        fee,
        nonce,
        reads,
        Vec::new(),
        "sig_main".to_string(),
        "sig_derived".to_string(),
    )
    .unwrap()
}

fn votes_of(confirms: usize, total: usize) -> Vec<(NodeId, Vote)> {
    (0..total)
        .map(|i| (format!("v{:02}", i), if i < confirms { Vote::Confirm } else { Vote::Reject }))
        .collect()
}

fn test_key() -> (secp256k1::SecretKey, String) {
    let secp = secp256k1::Secp256k1::new();
    let sk = secp256k1::SecretKey::from_slice(&[1u8; 32]).unwrap();
    let pk = secp256k1::PublicKey::from_secret_key(&secp, &sk);
    (sk, hex::encode(pk.serialize()))
}

fn sign_hex(sk: &secp256k1::SecretKey, digest: &[u8]) -> String {
    let secp = secp256k1::Secp256k1::new();
    let msg = secp256k1::Message::from_digest_slice(digest).unwrap();
    hex::encode(secp.sign_ecdsa(&msg, sk).serialize_compact())
}

#[test]
fn hash_ignores_order_and_repetition_of_reads() {
    let a = plain_tx("s", "r", 5, 1, 0, vec!["x".to_string(), "y".to_string()]);
    let b = plain_tx("s", "r", 5, 1, 0, vec!["y".to_string(), "x".to_string(), "y".to_string()]);
    let c = plain_tx("s", "r", 5, 1, 0, vec!["x".to_string()]);
    assert_eq!(a.hash, b.hash);
    assert_ne!(a.hash, c.hash);
    assert_eq!(b.reads, vec!["x".to_string(), "y".to_string()]);
}

#[test]
fn hash_is_sha256_of_the_canonical_record() {
    let tx = plain_tx("alice", "bob", 100, 1, 7, vec!["b".to_string(), "a".to_string()]);
    let record = "{\"from\":\"alice\",\"to\":\"bob\",\"asset\":\"PLP\",\"amount\":100,\"fee_uplp\":1,\"nonce\":7,\"reads\":[\"a\",\"b\"],\"writes\":[]}";
    let mut h = sha2::Sha256::new();
    h.update(b"PlatariumSignature:");
    h.update(record.as_bytes());
    assert_eq!(tx.hash, hex::encode(h.finalize()));
    assert_eq!(tx.hash.len(), 64);
    assert_eq!(tx.compute_hash().unwrap(), tx.hash);
    assert!(tx.validate_hash().unwrap());
}

#[test]
fn token_asset_is_hashed_by_canonical_text() {
    let a = Transaction::new(
        "s".to_string(), "r".to_string(), Asset::Token("USDT".to_string()), 1, 1, 0,
        Vec::new(), Vec::new(), String::new(), String::new(),
    ).unwrap();
    let b = plain_tx("s", "r", 1, 1, 0, Vec::new());
    assert_ne!(a.hash, b.hash);
    assert_eq!(Asset::Token("USDT".to_string()).as_canonical(), "Token:USDT");
}

#[test]
fn validation_errors_in_order() {
    let zero = plain_tx("s", "r", 0, 0, 0, Vec::new());
    assert_eq!(zero.validate_basic(), Err(TransactionValidationError::InvalidAmount));
    let no_fee = plain_tx("s", "r", 1, 0, 0, Vec::new());
    assert_eq!(no_fee.validate_basic(), Err(TransactionValidationError::InvalidFee(1, 0)));
    assert_eq!(
        TransactionValidationError::InvalidFee(1, 0).message(),
        "Invalid fee: fee must be in μPLP and at least 1, got 0"
    );
    let bad_sig = plain_tx("s", "r", 1, 1, 0, Vec::new());
    assert!(matches!(bad_sig.validate_basic(), Err(TransactionValidationError::InvalidSignature(_))));
    assert!(bad_sig.verify_signatures().is_err());
}

#[test]
fn signature_check_accepts_compact_and_der() {
    let (sk, pk_hex) = test_key();
    let digest = [7u8; 32];
    let secp = secp256k1::Secp256k1::new();
    let msg = secp256k1::Message::from_digest_slice(&digest).unwrap();
    let sig = secp.sign_ecdsa(&msg, &sk);
    let compact = hex::encode(sig.serialize_compact());
    let der = hex::encode(sig.serialize_der());
    assert_eq!(verify_signature(&digest, &compact, &pk_hex), Ok(true));
    assert_eq!(verify_signature(&digest, &der, &pk_hex), Ok(true));
    assert_eq!(verify_signature(&[8u8; 32], &compact, &pk_hex), Ok(false));
    assert!(matches!(verify_signature(&digest, "zz", &pk_hex), Err(PlatariumError::Signature(_))));
    assert!(matches!(verify_signature(&digest, &compact, "xyz"), Err(PlatariumError::Signature(_))));
}

#[test]
fn signed_transaction_validates_and_applies() {
    let (sk, pk_hex) = test_key();
    let unsigned = plain_tx(&pk_hex, "bob", 100, 2, 0, Vec::new());
    let digest = hex::decode(&unsigned.hash).unwrap();
    let sig = sign_hex(&sk, &digest);
    let tx = Transaction::new(
        pk_hex.clone(), "bob".to_string(), Asset::PLP, 100, 2, 0, Vec::new(), Vec::new(),
        sig.clone(), sig,
    ).unwrap();
    assert_eq!(tx.verify_signatures().unwrap(), true);
    assert_eq!(tx.validate_basic(), Ok(()));

    let mut core = Core::new();
    core.state_mut().set_balance(&pk_hex, 1000);
    core.state_mut().set_uplp_balance(&pk_hex, 10);
    let hash = core.submit_transaction(tx.clone()).unwrap();
    assert_eq!(hash, tx.hash);
    assert!(core.mempool().contains(&hash));
    assert_eq!(core.state().get_balance(&pk_hex), 900);
    assert_eq!(core.state().get_balance(&"bob".to_string()), 100);
    assert_eq!(core.state().get_uplp_balance(&"treasury".to_string()), 2);
    assert_eq!(core.state().get_nonce(&pk_hex), 1);

    // a replay is refused by the mempool and changes nothing
    assert!(core.submit_transaction(tx).is_err());
    assert_eq!(core.state().get_balance(&pk_hex), 900);
    assert_eq!(core.mempool().len(), 1);
}

#[test]
fn failed_transfer_leaves_every_map_unchanged() {
    let mut state = State::new();
    let a = "a".to_string();
    let b = "b".to_string();
    state.set_balance(&a, 50);
    state.set_uplp_balance(&a, 0);
    state.set_nonce(&a, 3);
    let before = state.snapshot();
    // fee balance short: the asset balance was sufficient, still nothing moves
    let r = state.apply_transfer(&a, &b, &Asset::PLP, 10, 1, Some(3));
    assert_eq!(
        r,
        Err(PlatariumError::State("Insufficient balance: required 1, available 0".to_string()))
    );
    assert!(state.snapshot() == before);
    // nonce is checked first
    let r = state.apply_transfer(&a, &b, &Asset::PLP, 1000, 1, Some(9));
    assert_eq!(r, Err(PlatariumError::State("Invalid nonce: expected 9, got 3".to_string())));
    assert!(state.snapshot() == before);
    assert_eq!(state.get_nonce(&a), 3);
    assert_eq!(state.get_uplp_balance(&"treasury".to_string()), 0);
}

#[test]
fn restore_after_transfer_scenario() {
    let mut state = State::new();
    let s = "sender".to_string();
    let r = "receiver".to_string();
    state.set_balance(&s, 1000);
    state.set_uplp_balance(&s, 10);
    state.set_nonce(&s, 0);
    state.set_balance(&r, 0);
    let sigma = state.snapshot();
    state.apply_transfer(&s, &r, &Asset::PLP, 100, 1, None).unwrap();
    assert_eq!(state.get_balance(&s), 900);
    assert_eq!(state.get_balance(&r), 100);
    assert_eq!(state.get_uplp_balance(&s), 9);
    assert_eq!(state.get_uplp_balance(&"treasury".to_string()), 1);
    assert_eq!(state.get_nonce(&s), 0);
    state.restore(&sigma);
    assert_eq!(state.get_balance(&s), 1000);
    assert_eq!(state.get_balance(&r), 0);
    assert_eq!(state.get_uplp_balance(&s), 10);
    assert_eq!(state.get_uplp_balance(&"treasury".to_string()), 0);
    assert_eq!(sigma.get_balance(&s), 1000);
    assert!(state.snapshot() == sigma);
}

#[test]
fn snapshot_survives_later_mutation() {
    let mut state = State::new();
    let a = "a".to_string();
    state.set_balance(&a, 5);
    state.set_nonce(&a, 1);
    let sigma = state.snapshot();
    state.set_balance(&a, 6);
    state.set_nonce(&a, 2);
    state.set_asset_balance(&a, &Asset::Token("T".to_string()), 9);
    assert_eq!(sigma.get_balance(&a), 5);
    assert_eq!(sigma.get_nonce(&a), 1);
    assert_eq!(sigma.balance_count(), 1);
    assert_eq!(sigma.get_all_balances(), vec![(a.clone(), 5)]);
}

#[test]
fn state_root_formula() {
    let mut state = State::new();
    state.set_balance(&"bob".to_string(), 7);
    state.set_balance(&"alice".to_string(), 300);
    state.set_asset_balance(&"alice".to_string(), &Asset::Token("X".to_string()), 55);
    state.set_nonce(&"alice".to_string(), 2);
    let root = state.snapshot().compute_state_root();
    let mut h = sha2::Sha256::new();
    h.update(b"alice");
    h.update(300u128.to_le_bytes());
    h.update(b"bob");
    h.update(7u128.to_le_bytes());
    h.update(b"alice");
    h.update(2u64.to_le_bytes());
    assert_eq!(root, hex::encode(h.finalize()));
}

#[test]
fn replaying_a_batch_gives_equal_roots() {
    let build = || {
        let mut s = State::new();
        s.set_balance(&"a".to_string(), 100);
        s.set_uplp_balance(&"a".to_string(), 5);
        s
    };
    let mut s1 = build();
    let mut s2 = build();
    let batch = vec![
        ("a", "b", 10u128, 1u128, Some(0u64)),
        ("a", "c", 500, 1, Some(1)),
        ("a", "c", 20, 1, Some(1)),
    ];
    for (f, t, amt, fee, n) in &batch {
        let r1 = s1.apply_transfer(&f.to_string(), &t.to_string(), &Asset::PLP, *amt, *fee, *n);
        let r2 = s2.apply_transfer(&f.to_string(), &t.to_string(), &Asset::PLP, *amt, *fee, *n);
        assert_eq!(r1.is_ok(), r2.is_ok());
    }
    assert_eq!(s1.snapshot().compute_state_root(), s2.snapshot().compute_state_root());
    assert_eq!(s1.get_balance(&"c".to_string()), 20);
}

#[test]
fn execution_applicability_messages() {
    let mut state = State::new();
    let tx = plain_tx("s", "r", 10, 1, 0, Vec::new());
    state.set_nonce(&"s".to_string(), 1);
    assert_eq!(
        ExecutionLogic::check_transaction_applicability(&state, &tx),
        Err(PlatariumError::State("Invalid nonce: expected 0, got 1".to_string()))
    );
    state.set_nonce(&"s".to_string(), 0);
    assert_eq!(
        ExecutionLogic::check_transaction_applicability(&state, &tx),
        Err(PlatariumError::State("Insufficient asset balance: required 10, available 0".to_string()))
    );
    state.set_balance(&"s".to_string(), 10);
    assert_eq!(
        ExecutionLogic::check_transaction_applicability(&state, &tx),
        Err(PlatariumError::State("Insufficient μPLP for fee: required 1, available 0".to_string()))
    );
    state.set_uplp_balance(&"s".to_string(), 1);
    assert_eq!(ExecutionLogic::check_transaction_applicability(&state, &tx), Ok(()));
    assert_eq!(
        ExecutionLogic::commit(ExecutionContext::Simulation),
        Err(PlatariumError::State("Execution error: Commit not allowed in simulation mode".to_string()))
    );
    let sim = ExecutionLogic::simulate(&tx, &state.snapshot());
    assert!(sim.is_failure());
    assert!(sim.get_error().unwrap().starts_with("State error: Transaction validation error: Invalid signature"));
}

#[test]
fn mempool_selection_forced_first_then_arrival_order() {
    let mut m = Mempool::new();
    let t1 = plain_tx("s1", "r", 1, 1, 0, Vec::new());
    let t2 = plain_tx("s2", "r", 1, 1, 0, Vec::new());
    let t3 = plain_tx("s3", "r", 1, 1, 0, Vec::new());
    m.add_transaction(t1.clone()).unwrap();
    m.add_transaction(t2.clone()).unwrap();
    m.add_transaction(t3.clone()).unwrap();
    m.add_forced_inclusion(t3.hash.clone());
    m.add_forced_inclusion("absent".to_string());
    m.add_forced_inclusion(t3.hash.clone());
    assert_eq!(m.get_forced_inclusion(), vec![t3.hash.clone(), "absent".to_string()]);
    assert_eq!(m.get_transaction_hashes_for_block(2), vec![t3.hash.clone(), t1.hash.clone()]);
    assert_eq!(m.get_transaction_hashes_for_block(0), vec![t3.hash.clone()]);
    assert_eq!(
        m.get_transaction_hashes_for_block(10),
        vec![t3.hash.clone(), t1.hash.clone(), t2.hash.clone()]
    );
    let dup = m.add_transaction(t1.clone());
    assert_eq!(
        dup,
        Err(PlatariumError::State(format!(
            "Mempool error: Duplicate transaction: transaction with hash {} already exists",
            t1.hash
        )))
    );
    m.remove_forced_inclusion(&[t3.hash.clone()]);
    assert_eq!(m.get_forced_inclusion(), vec!["absent".to_string()]);
}

#[test]
fn mempool_selection_is_reproducible() {
    let build = || {
        let mut m = Mempool::new();
        for i in 0..5 {
            m.add_transaction(plain_tx(&format!("s{}", i), "r", 1, 1, 0, Vec::new())).unwrap();
        }
        m
    };
    let a = build();
    let b = build();
    assert_eq!(a.get_transaction_hashes_for_block(3), b.get_transaction_hashes_for_block(3));
    assert_eq!(a.get_transaction_hashes_for_block(3), a.get_transaction_hashes_for_block(3));
}

#[test]
fn forced_queue_is_capped() {
    let mut m = Mempool::new();
    for i in 0..300 {
        m.add_forced_inclusion(format!("h{}", i));
    }
    assert_eq!(m.get_forced_inclusion().len(), 256);
}

#[test]
fn l1_threshold_boundaries() {
    let (res, pen) = process_l1_confirmation(&votes_of(67, 100)).unwrap();
    assert_eq!(res, ConfirmationResult::Confirmed);
    assert_eq!(pen.len(), 33);
    let (res, _) = process_l1_confirmation(&votes_of(66, 100)).unwrap();
    assert_eq!(res, ConfirmationResult::Rejected);
    let (res, pen) = process_l1_confirmation(&votes_of(2, 3)).unwrap();
    assert_eq!(res, ConfirmationResult::Rejected);
    assert_eq!(pen, vec!["v02".to_string()]);
    let (res, pen) = process_l1_confirmation(&votes_of(7, 10)).unwrap();
    assert_eq!(res, ConfirmationResult::Confirmed);
    assert_eq!(pen, vec!["v07".to_string(), "v08".to_string(), "v09".to_string()]);
    assert_eq!(
        process_l1_confirmation(&[]).unwrap_err(),
        PlatariumError::State("ConfirmationLayer: No votes provided".to_string())
    );
}

#[test]
fn l2_threshold_scenario() {
    let (res, pen) = process_l2_block_votes(&votes_of(7, 10)).unwrap();
    assert_eq!(res, BlockConfirmationResult::Confirmed);
    assert_eq!(pen, vec!["v07".to_string(), "v08".to_string(), "v09".to_string()]);
    let (res, pen) = process_l2_block_votes(&votes_of(6, 10)).unwrap();
    assert_eq!(res, BlockConfirmationResult::Rejected);
    assert_eq!(pen.len(), 4);
    let (_, pen) = process_l2_block_votes(&votes_of(4, 10)).unwrap();
    assert_eq!(pen, vec!["v00".to_string(), "v01".to_string(), "v02".to_string(), "v03".to_string()]);
    assert!(process_l2_block_votes(&[]).is_err());
}

#[test]
fn fee_is_always_a_bucket_value() {
    for p in 0..2500usize {
        let f = calculate_fee_from_load(p);
        assert!(f == 1 || f == 2 || f == 3 || f == 5);
    }
    assert_eq!(calculate_fee_from_load(usize::MAX), 5);
    assert_eq!(fee_to_plp_string(0), "0.000000");
    assert_eq!(fee_to_plp_string(u64::MAX), "18446744073709.551615");
}

#[test]
fn registry_errors_and_scores() {
    let mut reg = NodeRegistry::new();
    reg.register("b".into(), "pk".into(), 100, 0).unwrap();
    reg.register("a".into(), "pk".into(), 300, 4).unwrap();
    assert_eq!(
        reg.register("a".into(), "pk".into(), 1, 1),
        Err(PlatariumError::State("NodeRegistry: Node already exists: a".to_string()))
    );
    assert_eq!(
        reg.set_uptime_score(&"a".into(), SCORE_SCALE + 1),
        Err(PlatariumError::State("NodeRegistry: Invalid score: must be 0..=1000000, got 1000001".to_string()))
    );
    assert_eq!(
        reg.set_latency_score(&"zz".into(), 5),
        Err(PlatariumError::State("NodeRegistry: Node not found: zz".to_string()))
    );
    let all = reg.get_all();
    assert_eq!(all[0].node_id, "a");
    assert_eq!(all[1].node_id, "b");
    assert_eq!(all[1].max_capacity, 1);
    // b registered alone: full stake weight
    assert_eq!(all[1].reputation_score, SCORE_SCALE);
    reg.set_stake(&"b".into(), 100).unwrap();
    // b now weighs 100/300 of the stake: 1000 * 0.2 * 1/3 lost
    let b = reg.get(&"b".into()).unwrap();
    assert_eq!(b.reputation_score, (300 * SCORE_SCALE + 200 * SCORE_SCALE + 300 * SCORE_SCALE + 200 * 333_333) / 1000);
    reg.set_load(&"a".into(), 2, 4).unwrap();
    let a = reg.get(&"a".into()).unwrap();
    assert_eq!(a.load_score, 500_000);
    assert_eq!(a.selection_weight(), a.reputation_score / 2);
    assert_eq!(a.selection_weight_ratio(), a.reputation_score * 2);
    reg.record_vote(&"a".into(), true).unwrap();
    reg.record_vote(&"a".into(), false).unwrap();
    assert_eq!(reg.get(&"a".into()).unwrap().vote_accuracy(), 500_000);
    reg.set_status(&"b".into(), NodeStatus::Suspended).unwrap();
    assert_eq!(reg.get_eligible().len(), 1);
    assert!(reg.unregister(&"b".into()).is_ok());
    assert!(reg.unregister(&"b".into()).is_err());
    assert_eq!(reg.len(), 1);
}

#[test]
fn huge_stakes_weigh_exactly() {
    let mut reg = NodeRegistry::new();
    reg.register("big".into(), "pk".into(), u128::MAX, 1).unwrap();
    reg.register("half".into(), "pk".into(), u128::MAX / 2, 1).unwrap();
    let half = reg.get(&"half".into()).unwrap();
    // stake weight 499_999 (floor), so reputation (800_000_000 + 99_999_800) / 1000
    assert_eq!(half.reputation_score, 899_999);
}

#[test]
fn slashing_penalties_accumulate() {
    let mut reg = NodeRegistry::new();
    reg.register("n1".into(), "pk1".into(), 1000, 10).unwrap();
    for k in 1..=7u64 {
        apply_slash(&mut reg, &"n1".into(), SlashingReason::Equivocation).unwrap();
        let n = reg.get(&"n1".into()).unwrap();
        assert_eq!(n.reputation_score, SCORE_SCALE.saturating_sub(150_000 * k));
        assert_eq!(n.status == NodeStatus::Suspended, k == 7);
    }
    let n = reg.get(&"n1".into()).unwrap();
    assert_eq!(n.stake, 300);
    assert_eq!(n.penalty_total, 1_050_000);
    // later recomputations keep the penalties
    reg.set_uptime_score(&"n1".into(), SCORE_SCALE).unwrap();
    assert_eq!(reg.get(&"n1".into()).unwrap().reputation_score, 0);
    assert_eq!(
        apply_slash(&mut reg, &"ghost".into(), SlashingReason::NoVote),
        Err(PlatariumError::State("Slashing: Node not found: ghost".to_string()))
    );
    assert!(apply_slash_batch(&mut reg, &["ghost".to_string(), "n1".to_string()], SlashingReason::NoVote).is_ok());
    assert_eq!(reg.get(&"n1".into()).unwrap().stake, 299);
    assert_eq!(reg.get(&"n1".into()).unwrap().penalty_total, 1_070_000);
}

#[test]
fn penalty_then_suspension_at_threshold() {
    let mut reg = NodeRegistry::new();
    reg.register("n1".into(), "pk1".into(), 1000, 10).unwrap();
    reg.set_uptime_score(&"n1".into(), 0).unwrap();
    reg.set_latency_score(&"n1".into(), 0).unwrap();
    // 300 + 200 = 500 per mille remain
    assert_eq!(reg.get(&"n1".into()).unwrap().reputation_score, 500_000);
    reg.apply_reputation_penalty(&"n1".into(), 400_000, 100_000).unwrap();
    assert_eq!(reg.get(&"n1".into()).unwrap().status, NodeStatus::Active);
    reg.apply_reputation_penalty(&"n1".into(), 1, 100_000).unwrap();
    let n = reg.get(&"n1".into()).unwrap();
    assert_eq!(n.reputation_score, 99_999);
    assert_eq!(n.status, NodeStatus::Suspended);
}

#[test]
fn selection_scenario_and_disjoint_layers() {
    let build = || {
        let mut reg = NodeRegistry::new();
        for i in 1..=5 {
            reg.register(format!("n{}", i), "pk".into(), 1000, 10).unwrap();
        }
        reg
    };
    let reg = build();
    let other = build();
    let a = select_validators(&reg, 10, 100, 1, b"entropy").unwrap();
    assert_eq!(a.len(), 1);
    assert_eq!(a, select_validators(&other, 10, 100, 1, b"entropy").unwrap());
    let l2 = select_validators_l2(&reg, 10, 100, 1, b"entropy", &a).unwrap();
    assert_eq!(l2.len(), 1);
    assert!(!l2.contains(&a[0]));
    let mut big = NodeRegistry::new();
    for i in 0..40 {
        big.register(format!("m{:02}", i), "pk".into(), 1000 + i as u128, 10).unwrap();
    }
    let many = select_validators(&big, 0, 100, 9, b"e").unwrap();
    assert_eq!(many.len(), 10);
    let mut sorted = many.clone();
    sorted.sort();
    sorted.dedup();
    assert_eq!(sorted, many);
    assert_eq!(
        selection_percent_from_load(1, 0),
        Err(PlatariumError::State("ValidatorSelection: System capacity must be positive".to_string()))
    );
    assert_eq!(select_count(0, 25), 0);
    assert_eq!(select_count(3, 25), 1);
    assert_eq!(select_count(10, 300), 10);
    let mut h = sha2::Sha256::new();
    h.update(1u64.to_le_bytes());
    h.update(b"entropy");
    assert_eq!(compute_seed(1, b"entropy"), h.finalize().to_vec());
}

#[test]
fn merkle_root_scenario() {
    assert_eq!(compute_merkle_root(&[]), "0");
    assert_eq!(compute_merkle_root(&["nothex".to_string(), "abcd".to_string()]), "0");
    let one = "01".repeat(32);
    assert_eq!(compute_merkle_root(&[one.clone()]), one);
    let two = "02".repeat(32);
    let r = compute_merkle_root(&[two.clone(), one.clone()]);
    let mut h = sha2::Sha256::new();
    h.update([1u8; 32]);
    h.update([2u8; 32]);
    assert_eq!(r, hex::encode(h.finalize()));
    assert_eq!(r.len(), 64);
    assert_eq!(r, compute_merkle_root(&[one.clone(), two.clone()]));
    assert!(r.chars().all(|c| c.is_ascii_hexdigit() && !c.is_ascii_uppercase()));
    let three = "03".repeat(32);
    let r3 = compute_merkle_root(&[three.clone(), one.clone(), two.clone()]);
    let mut h12 = sha2::Sha256::new();
    h12.update([1u8; 32]);
    h12.update([2u8; 32]);
    let a: Vec<u8> = h12.finalize().to_vec();
    let mut h33 = sha2::Sha256::new();
    h33.update([3u8; 32]);
    h33.update([3u8; 32]);
    let b: Vec<u8> = h33.finalize().to_vec();
    let (lo, hi) = if a < b { (a, b) } else { (b, a) };
    let mut top = sha2::Sha256::new();
    top.update(&lo);
    top.update(&hi);
    assert_eq!(r3, hex::encode(top.finalize()));
}

#[test]
fn block_hash_formula_and_limits() {
    let h = compute_block_hash_inner(3, "prev", -1, "m", "s", "p");
    let mut d = sha2::Sha256::new();
    d.update(3u64.to_le_bytes());
    d.update(b"prev");
    d.update((-1i64).to_le_bytes());
    d.update(b"m");
    d.update(b"s");
    d.update(b"p");
    assert_eq!(h, hex::encode(d.finalize()));
    assert_eq!(max_transactions_per_block(0, 10, 0), 1);
    assert_eq!(max_transactions_per_block(0, 0, 0), 0);
    assert_eq!(max_transactions_per_block(1000, 0, 0), 500);
    assert_eq!(max_transactions_per_block(1000, 20, 0), 100);
    assert_eq!(max_transactions_per_block(1000, u64::MAX, 0), 500);
    assert_eq!(max_block_size_bytes(0, 0, 79), 196_608);
    assert_eq!(max_block_size_bytes(0, 0, 80), 131_072);
    assert_eq!(max_block_time_sec(49), 5);
    assert_eq!(max_block_time_sec(50), 3);
}
