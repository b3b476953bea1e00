use rollup_core::hash_utils;
use rollup_core::parallel_executor::{ParallelExecutor, TransactionWithDeps};
use rollup_core::query_engine::{AccountRecord, QueryEngine, TransactionRecord, TransactionStatus};
use rollup_core::rate_limit::{IpKey, RateLimitError, RateLimiter, SecurityManager, TransactionRateLimiter};
use rollup_core::replay_protection::NonceManager;
use rollup_core::table::{StrMap, StrSet};
use rollup_core::types::Transaction;

fn tx(from: &str, to: &str, value: u64) -> Transaction {
    Transaction {
        from: from.to_string(),
        to: Some(to.to_string()),
        value,
        data: vec![],
        nonce: 0,
        gas_limit: 21000,
        max_fee_per_gas: 1,
    }
}

fn set(items: &[&str]) -> StrSet {
    StrSet::from_vec(items.iter().map(|s| s.to_string()).collect())
}

#[test]
fn test_dependency_analysis() {
    let executor = ParallelExecutor::default();
    let (reads, writes) = executor.analyze_dependencies(&tx("addr1", "addr2", 100));
    assert!(writes.contains("addr1"));
    assert!(writes.contains("addr2"));
    assert!(reads.contains("addr1"));
}

#[test]
fn test_execution_groups() {
    let executor = ParallelExecutor::default();
    let txs = vec![
        TransactionWithDeps {
            tx: tx("addr1", "addr2", 100),
            tx_hash: hash_utils::Hash::new(b"tx1"),
            reads: set(&["addr1"]),
            writes: set(&["addr1", "addr2"]),
        },
        TransactionWithDeps {
            tx: tx("addr3", "addr4", 100),
            tx_hash: hash_utils::Hash::new(b"tx2"),
            reads: set(&["addr3"]),
            writes: set(&["addr3", "addr4"]),
        },
    ];
    let groups = executor.build_execution_groups(txs);
    assert_eq!(groups.len(), 1);
    assert_eq!(groups[0].len(), 2);
}

#[test]
fn conflicting_transactions_split() {
    let executor = ParallelExecutor::default();
    let txs = vec![
        TransactionWithDeps { tx: tx("a", "b", 1), tx_hash: hash_utils::Hash::new(b"1"), reads: set(&["a"]), writes: set(&["a", "b"]) },
        TransactionWithDeps { tx: tx("b", "c", 1), tx_hash: hash_utils::Hash::new(b"2"), reads: set(&["b"]), writes: set(&["b", "c"]) },
    ];
    let groups = executor.build_execution_groups(txs);
    assert_eq!(groups.len(), 2);
}

#[test]
fn test_parallel_execution() {
    let mut executor = ParallelExecutor::default();
    let mut state: StrMap<Vec<u8>> = StrMap::new();
    state.insert("addr1".to_string(), 1000u64.to_le_bytes().to_vec());
    state.insert("addr3".to_string(), 1000u64.to_le_bytes().to_vec());
    let txs = vec![tx("addr1", "addr2", 100), tx("addr3", "addr4", 100)];
    let results = executor.execute_parallel(txs, &mut state);
    assert_eq!(results.len(), 2);
    assert!(results.iter().all(|r| r.success));
    assert_eq!(state.get("addr1").unwrap(), &900u64.to_le_bytes().to_vec());
    assert_eq!(state.get("addr2").unwrap(), &100u64.to_le_bytes().to_vec());
    let stats = executor.get_stats();
    assert_eq!(stats.len(), 1);
    assert_eq!(stats[0].total_transactions, 2);
    assert_eq!(stats[0].parallel_groups, 1);
}

#[test]
fn parallel_execution_insufficient_balance() {
    let mut executor = ParallelExecutor::new(2);
    let mut state: StrMap<Vec<u8>> = StrMap::new();
    state.insert("a".to_string(), 50u64.to_le_bytes().to_vec());
    let results = executor.execute_parallel(vec![tx("a", "b", 100)], &mut state);
    assert!(!results[0].success);
    assert_eq!(results[0].gas_used, 21000);
    assert_eq!(state.get("a").unwrap(), &50u64.to_le_bytes().to_vec());
}

#[test]
fn average_speedup_defaults_to_one() {
    let executor = ParallelExecutor::new(1);
    assert_eq!(executor.get_average_speedup_ppm(), 1_000_000);
}

#[test]
fn test_account_operations() {
    let mut engine = QueryEngine::new();
    let record = AccountRecord {
        address: "addr1".to_string(),
        balance: 1000,
        nonce: 0,
        created_at: 0,
        last_updated: 0,
        tx_count: 0,
    };
    engine.update_account(record);
    let retrieved = engine.get_account("addr1").unwrap();
    assert_eq!(retrieved.balance, 1000);
}

#[test]
fn test_balance_tracking() {
    let mut engine = QueryEngine::new();
    engine.update_balance("addr1", 5000);
    assert_eq!(engine.get_balance("addr1"), 5000);
    engine.update_balance("addr1", 3000);
    assert_eq!(engine.get_balance("addr1"), 3000);
}

fn record(hash: &[u8], from: &str) -> TransactionRecord {
    TransactionRecord {
        hash: hash_utils::Hash::new(hash),
        from: from.to_string(),
        to: Some("addr2".to_string()),
        value: 100,
        gas_used: 21000,
        fee: 100,
        status: TransactionStatus::Success,
        batch_id: 1,
        timestamp: 0,
        logs: vec![],
    }
}

#[test]
fn test_transaction_indexing() {
    let mut engine = QueryEngine::new();
    let tx = record(b"tx1", "addr1");
    let hash = tx.hash;
    engine.index_transaction(tx);
    let retrieved = engine.get_transaction(&hash).unwrap();
    assert_eq!(retrieved.value, 100);
    let history = engine.get_account_history("addr1", 10);
    assert_eq!(history.len(), 1);
}

#[test]
fn unknown_balance_is_zero_and_history_limit() {
    let mut engine = QueryEngine::new();
    assert_eq!(engine.get_balance("nobody"), 0);
    for i in 0u8..5 {
        engine.index_transaction(record(&[i], "x"));
    }
    assert_eq!(engine.get_account_history("x", 3).len(), 3);
    assert_eq!(engine.get_account_history("addr2", 10).len(), 5);
}

#[test]
fn test_rate_limiter() {
    let mut limiter = RateLimiter::new(2, 10);
    let ip = IpKey::V4(u32::from_be_bytes([127, 0, 0, 1]));
    let per_ip = governor::RateLimiter::direct(governor::Quota::per_minute(std::num::NonZeroU32::new(2).unwrap()));
    let global = governor::RateLimiter::direct(governor::Quota::per_second(std::num::NonZeroU32::new(10).unwrap()));
    let mut check = |l: &mut RateLimiter| {
        let g = global.check().is_ok();
        let i = per_ip.check().is_ok();
        l.check_rate_limit(ip, g, i)
    };
    assert!(check(&mut limiter).is_ok());
    assert!(check(&mut limiter).is_ok());
    assert!(check(&mut limiter).is_err());
}

#[test]
fn rate_limit_verdicts() {
    let mut limiter = RateLimiter::new(2, 10);
    let ip = IpKey::V4(1);
    assert_eq!(limiter.check_rate_limit(ip, false, true), Err(RateLimitError::GlobalLimitExceeded));
    assert_eq!(limiter.check_rate_limit(ip, true, false), Err(RateLimitError::IpLimitExceeded));
    assert_eq!(limiter.check_rate_limit(ip, true, true), Ok(()));
    assert_eq!(limiter.tracked_ip_count(), 1);
    limiter.reset_ip(ip);
    assert_eq!(limiter.tracked_ip_count(), 0);
}

#[test]
fn transaction_limit_per_address() {
    let mut limiter = TransactionRateLimiter::new(2);
    let ip = IpKey::V4(1);
    assert!(limiter.check_transaction_limit(ip, "a", true, true).is_ok());
    assert!(limiter.check_transaction_limit(ip, "a", true, true).is_ok());
    assert_eq!(
        limiter.check_transaction_limit(ip, "a", true, true),
        Err(RateLimitError::AddressLimitExceeded { max_per_hour: 2 })
    );
    assert!(limiter.check_transaction_limit(ip, "b", true, true).is_ok());
    limiter.reset_address("a");
    assert!(limiter.check_transaction_limit(ip, "a", true, true).is_ok());
}

#[test]
fn test_security_manager() {
    let mut security = SecurityManager::new();
    let ip = IpKey::V4(u32::from_be_bytes([192, 168, 1, 1]));
    assert!(!security.is_ip_blacklisted(ip));
    security.blacklist_ip(ip, "Test blacklist".to_string());
    assert!(security.is_ip_blacklisted(ip));
    security.unblacklist_ip(ip);
    assert!(!security.is_ip_blacklisted(ip));
}

#[test]
fn test_address_blacklist() {
    let mut security = SecurityManager::new();
    let address = "test_address";
    security.blacklist_address(address.to_string(), "Suspicious activity".to_string());
    assert!(security.is_address_blacklisted(address));
    security.unblacklist_address(address);
    assert!(!security.is_address_blacklisted(address));
}

#[test]
fn test_nonce_increment() {
    let mut manager = NonceManager::default();
    assert_eq!(manager.get_nonce("account1"), 0);
    manager.increment_nonce("account1");
    assert_eq!(manager.get_nonce("account1"), 1);
}

#[test]
fn test_nonce_verification() {
    let manager = NonceManager::default();
    assert!(manager.verify_nonce("account1", 1));
    assert!(!manager.verify_nonce("account1", 2));
}

#[test]
fn test_duplicate_detection() {
    let mut manager = NonceManager::default();
    let tx_hash = hash_utils::Hash::new(b"test_tx");
    let result1 = manager.record_transaction("account1", tx_hash, 1);
    assert!(result1.is_ok());
    let result2 = manager.record_transaction("account1", tx_hash, 2);
    assert!(result2.is_err());
}

#[test]
fn test_invalid_nonce() {
    let mut manager = NonceManager::default();
    let tx_hash = hash_utils::Hash::new(b"test_tx");
    let result = manager.record_transaction("account1", tx_hash, 5);
    assert!(result.is_err());
}

#[test]
fn replay_refused_after_record() {
    let mut manager = NonceManager::new(10);
    let h = hash_utils::Hash::new(b"a");
    manager.record_transaction_at("acc", h, 1, 100).unwrap();
    assert!(manager.is_duplicate(&h));
    assert_eq!(manager.get_nonce("acc"), 1);
    assert!(manager.record_transaction_at("acc", hash_utils::Hash::new(b"b"), 1, 101).is_err());
    assert!(manager.record_transaction_at("acc", hash_utils::Hash::new(b"b"), 2, 101).is_ok());
    manager.reset_nonce("acc");
    assert_eq!(manager.get_nonce("acc"), 0);
}

#[test]
fn auto_blacklist_after_repeated_failures() {
    let mut security = SecurityManager::new();
    for i in 0..9u64 {
        security.record_failed_attempt_at("bad".to_string(), i);
    }
    assert!(!security.is_address_blacklisted("bad"));
    security.record_failed_attempt_at("bad".to_string(), 9);
    assert!(security.is_address_blacklisted("bad"));
    let st = security.get_stats();
    assert_eq!(st.suspicious_activities, 1);
    assert_eq!(st.blacklisted_addresses, 1);
}
