use rollup_core::batching::{BatchBuilder, BatchOptimizer, BatchingStrategy};
use rollup_core::bridge::{Bridge, BridgeError, BridgeManager, BridgeStatus, TransferDirection, TransferStatus};
use rollup_core::cache::{MultiLayerCache, RollupCaches};
use rollup_core::types::Transaction;

fn create_test_tx(value: u64) -> Transaction {
    Transaction {
        from: "addr1".to_string(),
        to: Some("addr2".to_string()),
        value,
        data: vec![],
        nonce: 0,
        gas_limit: 21000,
        max_fee_per_gas: 1,
    }
}

#[test]
fn test_fixed_size_batching() {
    let mut builder = BatchBuilder::new(BatchingStrategy::FixedSize { size: 10 });
    for i in 0..15 {
        builder.add_transaction(create_test_tx(i));
    }
    assert!(builder.should_create_batch());
    let batch = builder.create_batch().unwrap();
    assert_eq!(batch.transactions.len(), 10);
    assert_eq!(builder.pending_count(), 5);
}

#[test]
fn test_gas_based_batching() {
    let mut builder = BatchBuilder::new(BatchingStrategy::GasBased { target_gas: 100_000 });
    for i in 0..5 {
        builder.add_transaction(create_test_tx(i));
    }
    assert!(builder.should_create_batch());
    let batch = builder.create_batch().unwrap();
    assert!(batch.total_gas >= 100_000);
}

#[test]
fn test_batch_optimizer() {
    let mut optimizer = BatchOptimizer::new();
    optimizer.update_conditions(900_000, 100);
    let strategy = optimizer.suggest_strategy();
    match strategy {
        BatchingStrategy::Hybrid { max_size, .. } => {
            assert!(max_size >= 200);
        }
        _ => panic!("Expected Hybrid strategy"),
    }
    optimizer.update_conditions(100_000, 5);
    let strategy = optimizer.suggest_strategy();
    match strategy {
        BatchingStrategy::Hybrid { max_size, .. } => {
            assert!(max_size <= 200);
        }
        _ => panic!("Expected Hybrid strategy"),
    }
}

#[test]
fn test_batching_stats() {
    let mut builder = BatchBuilder::new(BatchingStrategy::FixedSize { size: 5 });
    for i in 0..10 {
        builder.add_transaction(create_test_tx(i));
    }
    builder.create_batch();
    builder.create_batch();
    let stats = builder.get_stats();
    assert_eq!(stats.total_batches, 2);
    assert_eq!(stats.total_transactions, 10);
    assert_eq!(stats.avg_batch_size, 5);
}

#[test]
fn batch_size_and_value() {
    let mut builder = BatchBuilder::new(BatchingStrategy::FixedSize { size: 3 });
    for i in 1..=3 {
        builder.add_transaction(create_test_tx(i * 10));
    }
    let batch = builder.create_batch().unwrap();
    assert_eq!(batch.size(), 3);
    assert_eq!(batch.total_value(), 60);
    assert_eq!(batch.total_gas, 63000);
    assert_eq!(batch.batch_id, 0);
    assert!(builder.create_batch().is_none());
}

#[test]
fn gas_cut_keeps_at_least_one() {
    let mut builder = BatchBuilder::new(BatchingStrategy::GasBased { target_gas: 10 });
    builder.add_transaction(create_test_tx(1));
    builder.add_transaction(create_test_tx(2));
    let batch = builder.create_batch().unwrap();
    assert_eq!(batch.transactions.len(), 1);
    assert_eq!(builder.pending_count(), 1);
}

#[test]
fn fixed_size_not_ready_below_size() {
    let mut builder = BatchBuilder::new(BatchingStrategy::FixedSize { size: 4 });
    for i in 0..3 {
        builder.add_transaction(create_test_tx(i));
    }
    assert!(!builder.should_create_batch());
}

#[test]
fn medium_load_strategy() {
    let mut optimizer = BatchOptimizer::new();
    optimizer.update_conditions(500_000, 10);
    assert_eq!(
        optimizer.suggest_strategy(),
        BatchingStrategy::Hybrid { min_size: 50, max_size: 200, max_wait_ms: 2000, target_gas: 5_000_000 }
    );
}

fn eth_bridge() -> Bridge {
    Bridge {
        bridge_id: "eth_bridge".to_string(),
        chain_id: 1,
        chain_name: "Ethereum".to_string(),
        bridge_address: "0x123".to_string(),
        status: BridgeStatus::Active,
        total_locked: 0,
        total_transfers: 0,
        supported_tokens: vec!["ETH".to_string()],
    }
}

#[test]
fn test_bridge_registration() {
    let mut manager = BridgeManager::new();
    manager.register_bridge(eth_bridge()).unwrap();
    let retrieved = manager.get_bridge("eth_bridge").unwrap();
    assert_eq!(retrieved.chain_name, "Ethereum");
}

#[test]
fn test_deposit() {
    let mut manager = BridgeManager::new();
    manager.register_bridge(eth_bridge()).unwrap();
    let transfer = manager
        .initiate_deposit(
            "eth_bridge".to_string(),
            "sender1".to_string(),
            "recipient1".to_string(),
            "ETH".to_string(),
            1000,
            vec![1, 2, 3],
        )
        .unwrap();
    assert_eq!(transfer.direction, TransferDirection::Deposit);
    assert_eq!(transfer.status, TransferStatus::Pending);
}

#[test]
fn test_wrapped_token() {
    let mut manager = BridgeManager::new();
    let token = manager.create_wrapped_token(1, "0xABC".to_string()).unwrap();
    assert!(token.wrapped_address.contains("wrapped_"));
    assert_eq!(token.original_chain, 1);
}

#[test]
fn wrapped_token_address_and_duplicate() {
    let mut manager = BridgeManager::new();
    let token = manager.create_wrapped_token(42, "0xABC".to_string()).unwrap();
    assert_eq!(token.wrapped_address, "wrapped_42_0xABC");
    assert_eq!(manager.create_wrapped_token(42, "0xABC".to_string()), Err(BridgeError::WrappedTokenExists));
}

#[test]
fn bridge_errors() {
    let mut manager = BridgeManager::new();
    manager.register_bridge(eth_bridge()).unwrap();
    assert_eq!(manager.register_bridge(eth_bridge()).unwrap_err(), BridgeError::AlreadyRegistered);
    let r = manager.initiate_deposit("nope".to_string(), "a".to_string(), "b".to_string(), "ETH".to_string(), 1, vec![]);
    assert_eq!(r.unwrap_err(), BridgeError::BridgeNotFound);
    let mut paused = eth_bridge();
    paused.bridge_id = "paused".to_string();
    paused.status = BridgeStatus::Paused;
    manager.register_bridge(paused).unwrap();
    let r = manager.initiate_withdrawal("paused".to_string(), "a".to_string(), "b".to_string(), "ETH".to_string(), 1);
    assert_eq!(r.unwrap_err(), BridgeError::BridgeNotActive);
    let t = manager
        .initiate_deposit("eth_bridge".to_string(), "a".to_string(), "b".to_string(), "ETH".to_string(), 5, vec![])
        .unwrap();
    assert_eq!(manager.complete_transfer(t.transfer_hash), Err(BridgeError::TransferNotConfirmed));
    assert_eq!(
        manager.complete_transfer(rollup_core::hash_utils::Hash::new(b"none")),
        Err(BridgeError::TransferNotFound)
    );
    let stats = manager.get_stats();
    assert_eq!(stats.total_bridges, 2);
    assert_eq!(stats.active_bridges, 1);
    assert_eq!(stats.pending_transfers, 1);
    assert_eq!(stats.total_volume, 5);
}

#[test]
fn test_multi_layer_cache() {
    let mut cache = MultiLayerCache::<String, String>::new(2, 5, None);
    cache.put("key1".to_string(), "value1".to_string());
    cache.put("key2".to_string(), "value2".to_string());
    assert_eq!(cache.get(&"key1".to_string()), Some("value1".to_string()));
    assert_eq!(cache.get(&"key2".to_string()), Some("value2".to_string()));
}

#[test]
fn test_cache_eviction() {
    let mut cache = MultiLayerCache::<String, String>::new(2, 5, None);
    cache.put("key1".to_string(), "value1".to_string());
    cache.put("key2".to_string(), "value2".to_string());
    cache.put("key3".to_string(), "value3".to_string());
    assert!(cache.get(&"key1".to_string()).is_some());
}

#[test]
fn test_cache_ttl() {
    let mut cache = MultiLayerCache::<String, String>::new(10, 100, Some(100));
    cache.put_at("key1".to_string(), "value1".to_string(), 1_000);
    assert_eq!(cache.get_at(&"key1".to_string(), 1_050), Some("value1".to_string()));
    assert_eq!(cache.get_at(&"key1".to_string(), 1_150), None);
}

#[test]
fn test_cache_stats() {
    let mut cache = MultiLayerCache::<String, String>::new(10, 100, None);
    cache.put("key1".to_string(), "value1".to_string());
    cache.put("key2".to_string(), "value2".to_string());
    let stats = cache.stats();
    assert!(stats.l1_size > 0);
}

#[test]
fn test_rollup_caches() {
    let mut caches = RollupCaches::new();
    caches.accounts.put("account1".to_string(), vec![1, 2, 3]);
    assert!(caches.accounts.get(&"account1".to_string()).is_some());
    let stats = caches.get_all_stats();
    assert!(stats.accounts.l1_size > 0);
}

#[test]
fn cache_remove_and_clear() {
    let mut cache = MultiLayerCache::<u64, u64>::new(1, 2, None);
    cache.put(1, 10);
    cache.put(2, 20);
    assert_eq!(cache.remove(&1), Some(10));
    assert_eq!(cache.remove(&1), None);
    assert_eq!(cache.get(&2), Some(20));
    cache.clear();
    assert_eq!(cache.get(&2), None);
    let st = cache.stats();
    assert_eq!((st.l1_size, st.l1_capacity, st.l2_size, st.l2_capacity), (0, 1, 0, 2));
}

#[test]
fn cache_cleanup_expired() {
    let mut cache = MultiLayerCache::<u64, u64>::new(4, 4, Some(10));
    cache.put_at(1, 1, 100);
    cache.put_with_ttl_at(2, 2, None, 100);
    cache.cleanup_expired_at(200);
    assert_eq!(cache.stats().l1_size, 1);
    assert_eq!(cache.get_at(&2, 200), Some(2));
}
