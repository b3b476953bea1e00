use rollup_core::hash_utils;
use rollup_core::simulation::{GasEstimator, TransactionSimulator};
use rollup_core::tracing::{AccessType, DebugAPI, TraceBuilder, TraceLogLevel, TransactionTracer};
use rollup_core::tx_pool::{FeeSuggestionEngine, TransactionPool};
use rollup_core::types::Transaction;
use rollup_core::util::DeepCopy;
use rollup_core::validator::{SlashReason, ValidatorManager, ValidatorStatus};

fn create_test_tx(from: &str, to: Option<&str>, value: u64) -> Transaction {
    Transaction {
        from: from.to_string(),
        to: to.map(|s| s.to_string()),
        value,
        data: vec![],
        nonce: 0,
        gas_limit: 21000,
        max_fee_per_gas: 1,
    }
}

#[test]
fn test_simulation_success() {
    let mut simulator = TransactionSimulator::new();
    simulator.load_state(vec![("addr1".to_string(), 1000u64.to_le_bytes().to_vec())]);
    let tx = create_test_tx("addr1", Some("addr2"), 100);
    let result = simulator.simulate(&tx);
    assert!(result.success);
    assert_eq!(result.state_changes.len(), 2);
}

#[test]
fn test_simulation_insufficient_balance() {
    let mut simulator = TransactionSimulator::new();
    simulator.load_state(vec![("addr1".to_string(), 50u64.to_le_bytes().to_vec())]);
    let tx = create_test_tx("addr1", Some("addr2"), 100);
    let result = simulator.simulate(&tx);
    assert!(!result.success);
    assert!(result.error.is_some());
    assert!(result.revert_reason.is_some());
}

#[test]
fn test_gas_estimation() {
    let simulator = TransactionSimulator::new();
    let tx = create_test_tx("addr1", Some("addr2"), 100);
    let estimate = simulator.estimate_gas(&tx, true);
    assert_eq!(estimate.base_fee, 21000);
    assert!(estimate.total_gas >= 21000);
    assert!(estimate.recommended_gas_limit > estimate.total_gas);
}

#[test]
fn test_batch_simulation() {
    let mut simulator = TransactionSimulator::new();
    simulator.load_state(vec![
        ("addr1".to_string(), 1000u64.to_le_bytes().to_vec()),
        ("addr2".to_string(), 500u64.to_le_bytes().to_vec()),
    ]);
    let txs = vec![create_test_tx("addr1", Some("addr2"), 100), create_test_tx("addr2", Some("addr3"), 50)];
    let results = simulator.simulate_batch(&txs);
    assert_eq!(results.len(), 2);
    assert!(results[0].success);
    assert!(results[1].success);
}

#[test]
fn test_gas_estimator() {
    let estimator = GasEstimator::new();
    let tx = create_test_tx("addr1", Some("addr2"), 100);
    let estimate = estimator.quick_estimate(&tx);
    assert_eq!(estimate, 21000);
    let recommended = estimator.recommend_gas_limit(&tx, 200_000);
    assert!(recommended > estimate);
    assert_eq!(recommended, 25200);
}

#[test]
fn data_and_creation_gas() {
    let estimator = GasEstimator::new();
    let mut tx = create_test_tx("a", None, 1);
    tx.data = vec![1, 2, 3];
    assert!(estimator.quick_estimate(&tx) > 21000);
    let batch = estimator.estimate_batch(&[create_test_tx("a", Some("b"), 1), create_test_tx("a", Some("b"), 1)]);
    assert_eq!(batch, 42000);
}

#[test]
fn test_trace_builder() {
    let tx_hash = hash_utils::Hash::new(b"test");
    let mut builder = TraceBuilder::new(tx_hash, true);
    builder.add_step("ADD".to_string(), 3, 100, vec!["1".to_string(), "2".to_string()]);
    builder.add_state_access(AccessType::Read, "addr1".to_string(), None, None, 100);
    builder.add_log(TraceLogLevel::Info, "Test log".to_string());
    let trace = builder.build();
    assert_eq!(trace.steps.len(), 1);
    assert_eq!(trace.state_accesses.len(), 1);
    assert_eq!(trace.logs.len(), 1);
    assert_eq!(trace.total_gas_used, 3);
}

#[test]
fn test_tracer() {
    let mut tracer = TransactionTracer::new(true);
    let tx_hash = hash_utils::Hash::new(b"test");
    let mut builder = tracer.start_trace(tx_hash);
    builder.add_step("CALL".to_string(), 700, 10000, vec![]);
    let trace = builder.build();
    tracer.store_trace(trace.deep_copy());
    let retrieved = tracer.get_trace(&tx_hash).unwrap();
    assert_eq!(retrieved.tx_hash, tx_hash);
}

#[test]
fn test_debug_api() {
    let tracer = TransactionTracer::new(true);
    let mut debug_api = DebugAPI::new(tracer);
    let tx = create_test_tx("addr1", Some("addr2"), 100);
    let trace = debug_api.replay_transaction(tx).unwrap();
    assert!(trace.total_gas_used > 0);
}

#[test]
fn trace_revert_and_error_are_kept() {
    let mut builder = TraceBuilder::new(hash_utils::Hash::new(b"x"), false);
    builder.add_step("ADD".to_string(), 3, 100, vec![]);
    builder.set_revert_reason("r".to_string());
    builder.set_error("e".to_string());
    let trace = builder.build();
    assert_eq!(trace.steps.len(), 1);
    assert_eq!(trace.total_gas_used, 3);
    assert_eq!(trace.revert_reason, Some("r".to_string()));
    assert_eq!(trace.error, Some("e".to_string()));
}

#[test]
fn test_transaction_pool() {
    let mut pool = TransactionPool::new(100, 10);
    let mut tx = create_test_tx("addr1", Some("addr2"), 100);
    tx.max_fee_per_gas = 10;
    pool.add(tx).unwrap();
    assert_eq!(pool.size(), 1);
}

#[test]
fn pool_pops_highest_fee_first() {
    let mut pool = TransactionPool::new(100, 10);
    for (i, fee) in [5u64, 50, 20].iter().enumerate() {
        let mut tx = create_test_tx(&format!("a{}", i), Some("b"), 1);
        tx.max_fee_per_gas = *fee;
        pool.add(tx).unwrap();
    }
    let top = pool.pop_top(2);
    let fees: Vec<u64> = top.iter().map(|t| t.max_fee_per_gas).collect();
    assert_eq!(fees, vec![50, 20]);
    assert_eq!(pool.size(), 1);
}

#[test]
fn test_fee_suggestion() {
    let mut engine = FeeSuggestionEngine::new(10);
    engine.record_block(1000, vec![100, 200, 300, 400, 500]);
    engine.record_block(1100, vec![150, 250, 350, 450, 550]);
    let suggestion = engine.suggest_fees();
    assert!(suggestion.slow > 0);
    assert!(suggestion.standard > suggestion.slow);
    assert!(suggestion.fast > suggestion.standard);
}

fn manager_with(vals: &[(&str, u64)]) -> ValidatorManager {
    let mut manager = ValidatorManager::new(1000);
    for (name, stake) in vals {
        manager.register_validator(name.to_string(), format!("pk_{}", name), *stake, 100_000).unwrap();
    }
    manager
}

#[test]
fn test_validator_registration() {
    let mut manager = ValidatorManager::new(1000);
    manager.register_validator("val1".to_string(), "pubkey1".to_string(), 2000, 100_000).unwrap();
    let validator = manager.get_validator("val1").unwrap();
    assert_eq!(validator.stake_amount, 2000);
    assert_eq!(validator.commission_rate_ppm, 100_000);
}

#[test]
fn test_stake_delegation() {
    let mut manager = manager_with(&[("val1", 2000)]);
    manager.delegate_stake("user1".to_string(), "val1".to_string(), 500).unwrap();
    let validator = manager.get_validator("val1").unwrap();
    assert_eq!(validator.stake_amount, 2500);
}

#[test]
fn test_slashing() {
    let mut manager = manager_with(&[("val1", 2000)]);
    let slash_event = manager.slash_validator("val1".to_string(), SlashReason::DoubleSign, 100_000, vec![]).unwrap();
    assert_eq!(slash_event.amount_slashed, 200);
    let validator = manager.get_validator("val1").unwrap();
    assert_eq!(validator.stake_amount, 1800);
    assert_eq!(validator.status, ValidatorStatus::Slashed);
}

#[test]
fn test_reward_distribution() {
    let mut manager = manager_with(&[("val1", 2000), ("val2", 3000)]);
    let distribution = manager.distribute_rewards(1, 1000).unwrap();
    assert_eq!(distribution.rewards_per_validator.len(), 2);
    assert_eq!(distribution.total_rewards, 1000);
}

#[test]
fn rewards_split_by_stake() {
    let mut manager = manager_with(&[("val1", 2000), ("val2", 3000)]);
    let distribution = manager.distribute_rewards(1, 1000).unwrap();
    let amounts: Vec<u64> = distribution.rewards_per_validator.iter().map(|r| r.1).collect();
    assert_eq!(amounts, vec![400, 600]);
}

#[test]
fn validator_errors() {
    let mut manager = manager_with(&[("val1", 2000)]);
    assert!(manager.register_validator("val1".to_string(), "x".to_string(), 2000, 0).is_err());
    assert!(manager.register_validator("low".to_string(), "x".to_string(), 10, 0).is_err());
    assert!(manager.delegate_stake("u".to_string(), "nope".to_string(), 1).is_err());
    assert!(manager.slash_validator("nope".to_string(), SlashReason::Downtime, 1, vec![]).is_err());
}

#[test]
fn rewards_never_exceed_pot() {
    let mut manager = manager_with(&[("a", 1000), ("b", 1000), ("c", 1000)]);
    let d = manager.distribute_rewards(1, 100).unwrap();
    let total: u64 = d.rewards_per_validator.iter().map(|r| r.1).sum();
    assert_eq!(total, 99);
    assert!(total <= 100);
}
