use rollup_core::admin::{bearer_token, valid_login, AccessDecision, AdminAuth, Claims, LoginRequest};
use rollup_core::checkpoint::{Checkpoint, CheckpointError, CheckpointManager, CheckpointType, RecoveryManager};
use rollup_core::client::GetTransactionRequest;
use rollup_core::events::EventFilter;
use rollup_core::hash_utils;
use rollup_core::metrics::{str_le, MetricsCollector};
use rollup_core::profiler::PerformanceProfiler;
use rollup_core::snapshot::{AccountSnapshot, SnapshotError, SnapshotManager, SnapshotType};
use rollup_core::table::StrMap;
use rollup_core::types::SerializableHash;
use rollup_core::websocket::{HeartbeatAction, WebSocketStats, WsCommand, WsSession};

fn accounts(balance: u64) -> StrMap<AccountSnapshot> {
    let mut m = StrMap::new();
    m.insert(
        "addr1".to_string(),
        AccountSnapshot { address: "addr1".to_string(), balance, nonce: 1, state_data: vec![1, 2, 3], code_hash: None },
    );
    m
}

#[test]
fn test_snapshot_creation() {
    let mut manager = SnapshotManager::new("rollup_snapshots_test".to_string(), 10);
    let (snapshot, _) = manager.create_full_snapshot(1, hash_utils::Hash::new(b"state_root"), &accounts(1000), b"addr1:1000").unwrap();
    assert_eq!(snapshot.account_count, 1);
    assert_eq!(snapshot.batch_id, 1);
}

#[test]
fn test_snapshot_load() {
    let mut manager = SnapshotManager::new("rollup_snapshots_load_test".to_string(), 10);
    let serialized = b"addr1:1000".to_vec();
    let (snapshot, compressed) = manager.create_full_snapshot(1, hash_utils::Hash::new(b"state_root"), &accounts(1000), &serialized).unwrap();
    assert_eq!(snapshot.total_balance, 1000);
    manager.commit_snapshot(snapshot, true);
    let loaded = manager.load_snapshot(snapshot.snapshot_id, &compressed).unwrap();
    assert_eq!(loaded, serialized);
    let (latest, data) = manager.load_latest_snapshot(&compressed).unwrap();
    assert_eq!(latest.snapshot_id, snapshot.snapshot_id);
    assert_eq!(data, serialized);
}

#[test]
fn test_incremental_snapshot() {
    let mut manager = SnapshotManager::new("rollup_snapshots_inc_test".to_string(), 10);
    let (base, _) = manager.create_full_snapshot(1, hash_utils::Hash::new(b"state_root"), &accounts(1000), b"a").unwrap();
    let (inc, _) = manager
        .create_incremental_snapshot(base.snapshot_id, 2, hash_utils::Hash::new(b"new_state_root"), &accounts(2000), b"b")
        .unwrap();
    assert!(matches!(inc.snapshot_type, SnapshotType::Incremental { .. }));
    assert_eq!(inc.snapshot_id, base.snapshot_id + 1);
}

#[test]
fn snapshot_errors() {
    let mut manager = SnapshotManager::new("d".to_string(), 2);
    assert_eq!(manager.get_latest_snapshot().unwrap_err(), SnapshotError::NoSnapshots);
    assert_eq!(manager.load_snapshot(4, b"x").unwrap_err(), SnapshotError::NotFound { snapshot_id: 4 });
    let (s, _) = manager.create_full_snapshot_at(1, hash_utils::Hash::new(b"r"), &accounts(5), b"x", 10).unwrap();
    manager.commit_snapshot(s, false);
    assert_eq!(manager.load_snapshot(s.snapshot_id, b"not gzip").unwrap_err(), SnapshotError::Io);
}

fn checkpoint(manager: &mut CheckpointManager, batch: u64) -> Checkpoint {
    manager.next_checkpoint(batch, hash_utils::Hash::new(b"test"), 100, 50, 5, CheckpointType::Full, 0, "now".to_string())
}

#[test]
fn test_checkpoint_creation() {
    let mut manager = CheckpointManager::new("cp".to_string(), 10);
    let checkpoint = checkpoint(&mut manager, 1);
    assert_eq!(checkpoint.batch_id, 1);
    assert_eq!(checkpoint.transaction_count, 100);
    assert_eq!(checkpoint.metadata.version, "1.0.0");
    assert_eq!(CheckpointManager::meta_file_name(checkpoint.checkpoint_id), "checkpoint_0_meta.json");
    assert_eq!(CheckpointManager::data_file_name(12), "checkpoint_12_data.bin.gz");
}

#[test]
fn test_checkpoint_load() {
    let mut manager = CheckpointManager::new("cp".to_string(), 10);
    let state_data = vec![1, 2, 3, 4, 5];
    let created = checkpoint(&mut manager, 1);
    let written = CheckpointManager::compress_state(&state_data);
    assert_ne!(written, state_data);
    let recovery = RecoveryManager::new(manager);
    let id = created.checkpoint_id;
    let (loaded, data) = recovery.recover_from_checkpoint(created, &written).unwrap();
    assert_eq!(loaded.checkpoint_id, id);
    assert_eq!(data, state_data);
    assert!(recovery.verify_checkpoint(&loaded, &data));
    assert_eq!(recovery.recover_from_checkpoint(loaded, b"junk").unwrap_err(), CheckpointError::CorruptData);
}

#[test]
fn test_checkpoint_cleanup() {
    let mut manager = CheckpointManager::new("cp".to_string(), 10);
    let listed: Vec<Checkpoint> = (0..5).map(|i| checkpoint(&mut manager, i)).collect();
    let deleted = manager.cleanup_old_checkpoints(&listed, 2);
    assert_eq!(deleted, vec![0, 1, 2]);
    assert_eq!(listed.len() - deleted.len(), 2);
}

#[test]
fn checkpoint_due_after_interval() {
    let mut manager = CheckpointManager::new("cp".to_string(), 10);
    assert!(!manager.should_checkpoint(9));
    assert!(manager.should_checkpoint(10));
    manager.record_checkpoint(10);
    assert!(!manager.should_checkpoint(15));
}

#[test]
fn test_metrics_collection() {
    let mut metrics = MetricsCollector::new();
    metrics.record_transaction_success(100, 50000, 1000);
    metrics.record_transaction_success(150, 60000, 1200);
    metrics.record_transaction_failure();
    let snapshot = metrics.get_snapshot();
    assert_eq!(snapshot.total_transactions, 3);
    assert_eq!(snapshot.successful_transactions, 2);
    assert_eq!(snapshot.failed_transactions, 1);
}

#[test]
fn test_batch_metrics() {
    let mut metrics = MetricsCollector::new();
    metrics.record_batch_created(1000, 50000);
    metrics.record_batch_settled(48000);
    let snapshot = metrics.get_snapshot();
    assert_eq!(snapshot.total_batches, 1);
    assert_eq!(snapshot.total_settled_batches, 1);
}

#[test]
fn metrics_means_rates_and_hours() {
    let mut metrics = MetricsCollector::new_at(100);
    metrics.record_transaction_success_at(100, 50000, 1000, "2024-01-01-02".to_string());
    metrics.record_transaction_success_at(150, 60000, 1200, "2024-01-01-01".to_string());
    metrics.record_transaction_success_at(50, 1, 1, "2024-01-01-02".to_string());
    metrics.record_transaction_failure();
    let s = metrics.get_snapshot_at(102);
    assert_eq!(s.avg_tx_processing_time_ms, 100);
    assert_eq!(s.success_rate_ppm, 750_000);
    assert_eq!(s.transactions_per_second_ppm, 2_000_000);
    assert_eq!(s.total_gas_used, 110001);
    assert_eq!(s.uptime_seconds, 2);
    let hours = metrics.get_hourly_stats();
    assert_eq!(hours.len(), 2);
    assert_eq!(hours[0].hour, "2024-01-01-01");
    assert_eq!((hours[1].transaction_count, hours[1].gas_used), (2, 50001));
    metrics.reset();
    assert_eq!(metrics.get_snapshot_at(102).total_transactions, 0);
    assert!(metrics.get_hourly_stats().is_empty());
}

#[test]
fn string_order() {
    assert!(str_le("a", "b"));
    assert!(str_le("ab", "ab"));
    assert!(str_le("ab", "abc"));
    assert!(!str_le("b", "a"));
    assert!(!str_le("abc", "ab"));
}

#[test]
fn test_profiler() {
    let mut profiler = PerformanceProfiler::new(true);
    let timer = profiler.start_at("test_function", 1_000);
    timer.stop_at(&mut profiler, 11_500);
    let report = profiler.get_report();
    assert_eq!(report.len(), 1);
    assert_eq!(report[0].function, "test_function");
    assert_eq!(report[0].total_calls, 1);
    assert!(report[0].avg_time_us > 1000);
}

#[test]
fn test_multiple_calls() {
    let mut profiler = PerformanceProfiler::new(true);
    for i in 0..5u64 {
        let timer = profiler.start_at("repeated_function", i * 10_000);
        timer.stop_at(&mut profiler, i * 10_000 + 1_000);
    }
    let report = profiler.get_report();
    assert_eq!(report[0].total_calls, 5);
}

#[test]
fn test_span() {
    let mut profiler = PerformanceProfiler::new(true);
    let span = profiler.start_span_at("test_span".to_string(), 1_000);
    span.finish_at(&mut profiler, 6_000);
    let spans = profiler.get_spans();
    assert_eq!(spans.len(), 1);
    assert!(spans[0].duration_us.is_some());
    assert_eq!(spans[0].duration_us, Some(5_000));
}

#[test]
fn test_summary() {
    let mut profiler = PerformanceProfiler::new(true);
    for i in 0..3 {
        let timer = profiler.start(&format!("func{}", i));
        assert!(timer.stop(&mut profiler));
    }
    let summary = profiler.get_summary();
    assert_eq!(summary.total_functions, 3);
    assert_eq!(summary.total_calls, 3);
}

#[test]
fn profiler_report_order_and_stats() {
    let mut profiler = PerformanceProfiler::new(true);
    profiler.record("fast", 10, false);
    profiler.record("slow", 3_000_000, true);
    profiler.record("fast", 30, false);
    let report = profiler.get_report();
    assert_eq!(report[0].function, "slow");
    assert_eq!(report[0].errors, 1);
    assert_eq!(report[0].calls_per_second_ppm, 333_333);
    assert_eq!(report[1].min_time_us, 10);
    assert_eq!(report[1].max_time_us, 30);
    assert_eq!(report[1].avg_time_us, 20);
    assert_eq!(report[1].calls_per_second_ppm, 2_000_000);
    let slowest = profiler.get_slowest(1);
    assert_eq!(slowest.len(), 1);
    assert_eq!(slowest[0].function, "slow");
    let s = profiler.get_summary();
    assert_eq!((s.total_functions, s.total_time_us, s.total_calls, s.total_errors), (2, 3_000_040, 3, 1));
    assert_eq!(s.avg_call_time_us, 1_000_013);
    profiler.clear();
    assert!(profiler.get_report().is_empty());
}

#[test]
fn disabled_profiler_records_nothing() {
    let mut profiler = PerformanceProfiler::new(false);
    profiler.record("f", 10, false);
    let t = profiler.start_at("g", 0);
    t.stop_at(&mut profiler, 5);
    assert!(profiler.get_report().is_empty());
}

#[test]
fn websocket_session_decisions() {
    let mut s = WsSession::new_with_id(7, None, 1_000);
    assert_eq!(s.id(), 7);
    assert_eq!(s.check_heartbeat(11_000), HeartbeatAction::Ping);
    assert_eq!(s.check_heartbeat(11_001), HeartbeatAction::Disconnect);
    s.heartbeat_at(11_001);
    assert_eq!(s.check_heartbeat(12_000), HeartbeatAction::Ping);
    let reply = s.handle_command(WsCommand::Subscribe { filter: EventFilter::TransactionEvents });
    assert_eq!(reply, "{\"status\":\"subscribed\"}");
    assert_eq!(s.filter(), Some(EventFilter::TransactionEvents));
    let reply = s.handle_command(WsCommand::Unsubscribe);
    assert_eq!(reply, "{\"status\":\"unsubscribed\"}");
    assert_eq!(s.filter(), None);
    let stats = WebSocketStats { active_connections: 1, total_messages_sent: 2, uptime_seconds: 3 };
    assert_eq!(stats.total_messages_sent, 2);
}

#[test]
fn websocket_session_subscribes_to_bus() {
    let mut bus = rollup_core::events::EventBus::new(10);
    let s = WsSession::new(Some(EventFilter::BatchEvents));
    let sub = s.start(&mut bus);
    assert_eq!(bus.subscriber_count(), 1);
    let r = bus.publish(rollup_core::events::RollupEvent::BatchSettled {
        batch_id: 1,
        settlement_tx: "t".to_string(),
        timestamp: 0,
    });
    assert_eq!(r, vec![sub]);
}

fn claims(role: &str) -> Option<Claims> {
    Some(Claims { sub: "user123".to_string(), role: role.to_string(), exp: 0, iat: 0 })
}

#[test]
fn test_role_check() {
    let auth = AdminAuth::default();
    assert!(auth.has_role(&claims("admin"), "admin"));
    assert!(auth.has_role(&claims("admin"), "operator"));
    assert!(!auth.has_role(&claims("viewer"), "operator"));
    assert!(!auth.has_role(&None, "viewer"));
}

#[test]
fn admin_claims_and_access() {
    let auth = AdminAuth::new("k".to_string());
    let c = auth.claims_at("user123", "admin", 1000);
    assert_eq!((c.iat, c.exp), (1000, 1000 + 24 * 3600));
    assert_eq!(auth.admin_access(&None, &None), AccessDecision::Unauthorized);
    assert_eq!(auth.admin_access(&Some("t".to_string()), &claims("viewer")), AccessDecision::Forbidden);
    assert_eq!(auth.admin_access(&Some("t".to_string()), &None), AccessDecision::Forbidden);
    assert_eq!(auth.admin_access(&Some("t".to_string()), &claims("admin")), AccessDecision::Allowed);
    assert_eq!(bearer_token("Bearer abc.def"), Some("abc.def".to_string()));
    assert_eq!(bearer_token("Basic abc"), None);
    assert_eq!(bearer_token("Bearer"), None);
    assert!(valid_login(&LoginRequest { username: "admin".to_string(), password: "admin".to_string() }));
    assert!(!valid_login(&LoginRequest { username: "admin".to_string(), password: "x".to_string() }));
}

#[test]
fn serializable_hash_bytes() {
    let h = SerializableHash::from_wire_bytes(&[7u8; 32]).unwrap();
    assert_eq!(h.inner().as_bytes(), &[7u8; 32]);
    assert!(SerializableHash::from_wire_bytes(&[7u8; 31]).is_none());
    assert_eq!(SerializableHash::default_hash().0, hash_utils::Hash::default());
    let r = GetTransactionRequest::new("abc".to_string());
    assert_eq!(r.tx_hash, "abc");
}
