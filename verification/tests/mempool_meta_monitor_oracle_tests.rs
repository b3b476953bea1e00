use rollup_core::mempool::{Mempool, MempoolError, Priority};
use rollup_core::meta_tx::{FeeRebate, MetaTransactionManager, MetaTxError, Sponsor};
use rollup_core::network_monitor::{NetworkMonitor, NetworkStatus};
use rollup_core::oracle::{Oracle, OracleError, OracleManager, OracleType};
use rollup_core::types::Transaction;

fn create_test_transaction() -> Vec<u8> {
    vec![0u8; 16]
}

#[test]
fn test_mempool_add_remove() {
    let mut mempool = Mempool::new(100);
    let tx = create_test_transaction();
    let hash = mempool.add_transaction(tx.clone(), None, Priority::Medium, 1000).unwrap();
    assert_eq!(mempool.size(), 1);
    let removed = mempool.remove_transaction(&hash);
    assert!(removed.is_some());
    assert_eq!(mempool.size(), 0);
}

#[test]
fn test_mempool_priority_ordering() {
    let mut mempool = Mempool::new(100);
    let tx1 = create_test_transaction();
    let tx2 = create_test_transaction();
    mempool.add_transaction(tx1, None, Priority::Low, 100).unwrap();
    mempool.add_transaction(tx2, None, Priority::High, 100).unwrap();
    let popped = mempool.pop_transaction().unwrap();
    assert_eq!(popped.priority, Priority::High);
}

#[test]
fn test_mempool_capacity() {
    let mut mempool = Mempool::new(2);
    mempool.add_transaction(create_test_transaction(), None, Priority::Medium, 100).unwrap();
    mempool.add_transaction(create_test_transaction(), None, Priority::Medium, 100).unwrap();
    let result = mempool.add_transaction(create_test_transaction(), None, Priority::Medium, 100);
    assert!(result.is_err());
    assert_eq!(result.unwrap_err(), MempoolError::MempoolFull);
}

#[test]
fn mempool_hash_is_sha256_and_fee_breaks_ties() {
    let mut mempool = Mempool::new(10);
    let h = mempool.add_transaction(vec![1, 2, 3], None, Priority::Medium, 5).unwrap();
    assert_eq!(h, rollup_core::hash_utils::Hash::new(&[1, 2, 3]));
    mempool.add_transaction(vec![4], None, Priority::Medium, 50).unwrap();
    mempool.add_transaction(vec![5], None, Priority::Urgent, 1).unwrap();
    let popped = mempool.pop_transactions(3);
    let fees: Vec<u64> = popped.iter().map(|t| t.fee).collect();
    assert_eq!(fees, vec![1, 50, 5]);
}

fn sponsor() -> Sponsor {
    Sponsor {
        sponsor_id: "sponsor1".to_string(),
        sponsor_address: "0xSPONSOR".to_string(),
        budget: 100000,
        spent: 0,
        sponsored_count: 0,
        whitelist: vec![],
        is_active: true,
    }
}

fn user_tx() -> Transaction {
    Transaction {
        from: "user1".to_string(),
        to: Some("user2".to_string()),
        value: 100,
        data: vec![],
        nonce: 0,
        gas_limit: 21000,
        max_fee_per_gas: 1,
    }
}

#[test]
fn test_sponsor_registration() {
    let mut manager = MetaTransactionManager::new();
    manager.register_sponsor(sponsor()).unwrap();
    let retrieved = manager.get_sponsor("sponsor1").unwrap();
    assert_eq!(retrieved.budget, 100000);
}

#[test]
fn test_meta_transaction() {
    let mut manager = MetaTransactionManager::new();
    let meta_tx = manager.create_meta_transaction(user_tx(), vec![1, 2, 3], "relayer1".to_string()).unwrap();
    assert!(!meta_tx.executed);
    assert_eq!(meta_tx.relayer, "relayer1");
}

#[test]
fn test_sponsorship() {
    let mut manager = MetaTransactionManager::new();
    manager.register_sponsor(sponsor()).unwrap();
    let meta_tx = manager.create_meta_transaction(user_tx(), vec![1, 2, 3], "relayer1".to_string()).unwrap();
    let sponsor_id = manager.request_sponsorship(meta_tx.meta_tx_hash, 21000).unwrap();
    assert_eq!(sponsor_id, "sponsor1");
    let updated_sponsor = manager.get_sponsor("sponsor1").unwrap();
    assert_eq!(updated_sponsor.spent, 21000);
    assert_eq!(updated_sponsor.sponsored_count, 1);
}

#[test]
fn test_fee_rebate() {
    let mut manager = MetaTransactionManager::new();
    let rebate = FeeRebate {
        user_address: "user1".to_string(),
        rebate_ppm: 500_000,
        total_rebated: 0,
        eligible_until: u64::MAX,
    };
    manager.add_fee_rebate(rebate).unwrap();
    let rebate_amount = manager.calculate_rebate("user1", 1000);
    assert_eq!(rebate_amount, 500);
    manager.apply_rebate("user1", 1000).unwrap();
    let updated_rebate = manager.get_rebate("user1").unwrap();
    assert_eq!(updated_rebate.total_rebated, 500);
}

#[test]
fn meta_tx_errors() {
    let mut manager = MetaTransactionManager::new();
    manager.register_sponsor(sponsor()).unwrap();
    assert_eq!(manager.register_sponsor(sponsor()).unwrap_err(), MetaTxError::SponsorAlreadyRegistered);
    let missing = rollup_core::hash_utils::Hash::new(b"missing");
    assert_eq!(manager.request_sponsorship(missing, 1).unwrap_err(), MetaTxError::MetaTxNotFound);
    let m = manager.create_meta_transaction(user_tx(), vec![], "r".to_string()).unwrap();
    assert_eq!(manager.request_sponsorship(m.meta_tx_hash, 200_000).unwrap_err(), MetaTxError::NoEligibleSponsor);
    manager.execute_meta_transaction(m.meta_tx_hash).unwrap();
    assert_eq!(manager.execute_meta_transaction(m.meta_tx_hash).unwrap_err(), MetaTxError::AlreadyExecuted);
    let bad = FeeRebate { user_address: "u".to_string(), rebate_ppm: 1_000_001, total_rebated: 0, eligible_until: 0 };
    assert_eq!(manager.add_fee_rebate(bad).unwrap_err(), MetaTxError::InvalidRebate);
    assert_eq!(manager.calculate_rebate("nobody", 1000), 0);
}

#[test]
fn test_network_monitor() {
    let mut monitor = NetworkMonitor::new();
    monitor.record_request(100, 200, true);
    monitor.record_request(150, 250, true);
    monitor.record_request(120, 220, false);
    let stats = monitor.get_stats();
    assert_eq!(stats.total_requests, 3);
    assert_eq!(stats.successful_requests, 2);
    assert_eq!(stats.failed_requests, 1);
    assert!(stats.success_rate > 600_000);
    assert_eq!(stats.success_rate, 666_666);
    assert_eq!(stats.total_bytes_sent, 370);
}

#[test]
fn test_peer_tracking() {
    let mut monitor = NetworkMonitor::new();
    monitor.update_peer("peer1".to_string(), 50, true);
    monitor.update_peer("peer2".to_string(), 100, true);
    monitor.record_peer_communication("peer1", 1000, 2000, true);
    let peers = monitor.get_peer_stats();
    assert_eq!(peers.len(), 2);
    let peer1 = peers.iter().find(|p| p.peer_id == "peer1").unwrap();
    assert_eq!(peer1.requests_sent, 1);
    assert_eq!(peer1.bytes_sent, 1000);
}

#[test]
fn test_health_snapshot() {
    let mut monitor = NetworkMonitor::new();
    monitor.record_request(100, 200, true);
    monitor.snapshot_health();
    let history = monitor.get_health_history(3600);
    assert_eq!(history.len(), 1);
}

#[test]
fn test_network_status() {
    let mut monitor = NetworkMonitor::new();
    for _ in 0..10 {
        monitor.record_request(100, 100, true);
    }
    monitor.set_active_connections(5);
    assert_eq!(monitor.get_status(), NetworkStatus::Healthy);
    for _ in 0..20 {
        monitor.record_request(100, 100, false);
    }
    assert_eq!(monitor.get_status(), NetworkStatus::Critical);
}

#[test]
fn network_offline_without_connections() {
    let mut monitor = NetworkMonitor::new();
    assert_eq!(monitor.get_status(), NetworkStatus::Healthy);
    monitor.record_request(1, 1, true);
    assert_eq!(monitor.get_status(), NetworkStatus::Offline);
    monitor.set_active_connections(1);
    for _ in 0..3 {
        monitor.record_request(1, 1, false);
    }
    assert_eq!(monitor.get_status(), NetworkStatus::Critical);
    for _ in 0..8 {
        monitor.record_request(1, 1, true);
    }
    assert_eq!(monitor.get_status(), NetworkStatus::Degraded);
}

fn oracle(id: &str, reliability: u64) -> Oracle {
    Oracle {
        oracle_id: id.to_string(),
        oracle_type: OracleType::PriceFeed,
        provider: "Test".to_string(),
        is_active: true,
        total_updates: 0,
        last_update: 0,
        reliability_score: reliability,
    }
}

#[test]
fn test_oracle_registration() {
    let mut manager = OracleManager::new();
    let mut o = oracle("chainlink1", 950_000);
    o.provider = "Chainlink".to_string();
    manager.register_oracle(o).unwrap();
    let stats = manager.get_stats();
    assert_eq!(stats.total_oracles, 1);
    assert_eq!(stats.active_oracles, 1);
}

#[test]
fn test_price_update() {
    let mut manager = OracleManager::new();
    manager.register_oracle(oracle("oracle1", 1_000_000)).unwrap();
    manager.update_price("oracle1".to_string(), "ETH/USD".to_string(), 2000_00, 2, 950_000).unwrap();
    let price = manager.get_price("ETH/USD").unwrap();
    assert_eq!(price, 2000_00);
}

#[test]
fn test_fresh_price() {
    let mut manager = OracleManager::new();
    manager.register_oracle(oracle("oracle1", 1_000_000)).unwrap();
    manager.update_price("oracle1".to_string(), "BTC/USD".to_string(), 50000_00, 2, 980_000).unwrap();
    let price = manager.get_fresh_price("BTC/USD", 300).unwrap();
    assert_eq!(price, 50000_00);
}

#[test]
fn test_twap() {
    let mut manager = OracleManager::new();
    manager.register_oracle(oracle("oracle1", 1_000_000)).unwrap();
    for price in [100, 110, 120, 130, 140] {
        manager.update_price("oracle1".to_string(), "TEST/USD".to_string(), price, 0, 1_000_000).unwrap();
    }
    let twap = manager.calculate_twap("TEST/USD", 3600).unwrap();
    assert!(twap > 0);
}

#[test]
fn oracle_errors_and_staleness() {
    let mut manager = OracleManager::new();
    manager.register_oracle(oracle("o", 1_000_000)).unwrap();
    assert_eq!(manager.register_oracle(oracle("o", 1)).unwrap_err(), OracleError::AlreadyRegistered);
    assert_eq!(
        manager.update_price("x".to_string(), "S".to_string(), 1, 0, 1).unwrap_err(),
        OracleError::OracleNotFound
    );
    let mut off = oracle("off", 1);
    off.is_active = false;
    manager.register_oracle(off).unwrap();
    assert_eq!(
        manager.update_price("off".to_string(), "S".to_string(), 1, 0, 1).unwrap_err(),
        OracleError::OracleNotActive
    );
    manager.update_price_at("o".to_string(), "S".to_string(), 7, 0, 1_000_000, 1000).unwrap();
    assert_eq!(manager.get_fresh_price_at("S", 10, 1005), Ok(7));
    assert_eq!(manager.get_fresh_price_at("S", 10, 1020), Err(OracleError::Stale { age: 20 }));
    assert_eq!(manager.get_fresh_price_at("T", 10, 1020), Err(OracleError::FeedNotFound));
}

#[test]
fn mempool_count_stays_within_capacity() {
    let mut mempool = Mempool::new(3);
    for i in 0u8..5 {
        let _ = mempool.add_transaction(vec![i], None, Priority::Low, 1);
        assert!(mempool.size() <= 3);
    }
    let h = mempool.add_transaction(vec![9], None, Priority::Low, 1);
    assert!(h.is_err());
    mempool.pop_transactions(10);
    assert_eq!(mempool.size(), 0);
    assert!(mempool.pop_transaction().is_none());
    assert_eq!(mempool.size(), 0);
}
