use rollup_core::emergency::{CircuitBreaker, CircuitBreakerConfig, CircuitState, EmergencyError, EmergencySystem, PauseAction};
use rollup_core::events::{EventBus, EventFilter, RollupEvent};
use rollup_core::fees::{FeeMarket, FeeTier, GasPriceOracle};
use rollup_core::governance::{GovError, GovernanceSystem, ProposalStatus, ProposalType, VoteChoice};

#[test]
fn test_emergency_pause() {
    let mut system = EmergencySystem::default();
    assert!(!system.is_paused());
    system.pause("Test pause".to_string(), "admin".to_string()).unwrap();
    assert!(system.is_paused());
    let result = system.is_operation_allowed();
    assert!(result.is_err());
    system.unpause("admin".to_string()).unwrap();
    assert!(!system.is_paused());
}

#[test]
fn test_circuit_breaker() {
    let config = CircuitBreakerConfig { failure_threshold: 3, success_threshold: 2, timeout_seconds: 1 };
    let mut breaker = CircuitBreaker::new(config);
    assert_eq!(breaker.get_state_at(100), CircuitState::Closed);
    for _ in 0..3 {
        breaker.record_failure_at(100);
    }
    assert_eq!(breaker.get_state_at(100), CircuitState::Open);
    assert_eq!(breaker.get_state_at(102), CircuitState::HalfOpen);
    for _ in 0..2 {
        breaker.record_success_at(102);
    }
    assert_eq!(breaker.get_state_at(102), CircuitState::Closed);
}

#[test]
fn emergency_system_circuit_state() {
    let config = CircuitBreakerConfig { failure_threshold: 3, success_threshold: 2, timeout_seconds: 1000 };
    let mut system = EmergencySystem::new(config);
    assert_eq!(system.get_circuit_state(), CircuitState::Closed);
    for _ in 0..3 {
        system.record_failure();
    }
    assert_eq!(system.get_circuit_state(), CircuitState::Open);
}

#[test]
fn test_pause_events() {
    let mut system = EmergencySystem::default();
    system.pause("Reason 1".to_string(), "admin1".to_string()).unwrap();
    system.unpause("admin2".to_string()).unwrap();
    let events = system.get_pause_events();
    assert_eq!(events.len(), 2);
    assert_eq!(events[0].action, PauseAction::Pause);
    assert_eq!(events[1].action, PauseAction::Unpause);
}

#[test]
fn pause_errors() {
    let mut system = EmergencySystem::default();
    assert_eq!(system.unpause("a".to_string()).unwrap_err(), EmergencyError::NotPaused);
    system.pause("r".to_string(), "a".to_string()).unwrap();
    assert_eq!(system.pause("r".to_string(), "a".to_string()).unwrap_err(), EmergencyError::AlreadyPaused);
    assert_eq!(system.is_operation_allowed().unwrap_err(), EmergencyError::Paused);
}

#[test]
fn circuit_open_refuses_operations() {
    let config = CircuitBreakerConfig { failure_threshold: 1, success_threshold: 1, timeout_seconds: 1000 };
    let mut system = EmergencySystem::new(config);
    system.record_failure();
    assert_eq!(system.is_operation_allowed().unwrap_err(), EmergencyError::CircuitOpen);
}

#[test]
fn test_event_publish_subscribe() {
    let mut bus = EventBus::new(100);
    let subscription = bus.subscribe(Some(EventFilter::TransactionEvents));
    let event = RollupEvent::TransactionSubmitted { tx_hash: "test".to_string(), timestamp: 12345 };
    let receivers = bus.publish(event);
    assert_eq!(receivers, vec![subscription]);
    let received = &bus.get_history(None)[0];
    assert_eq!(received.event_type(), "transaction_submitted");
}

#[test]
fn test_event_filtering() {
    let mut bus = EventBus::new(100);
    let subscription = bus.subscribe(Some(EventFilter::TransactionEvents));
    let receivers = bus.publish(RollupEvent::BatchCreated {
        batch_id: 1,
        transaction_count: 10,
        state_root: "root".to_string(),
        timestamp: 12345,
    });
    assert!(receivers.is_empty());
    let receivers = bus.publish(RollupEvent::TransactionSubmitted { tx_hash: "test".to_string(), timestamp: 12345 });
    assert_eq!(receivers, vec![subscription]);
}

#[test]
fn test_event_history() {
    let mut bus = EventBus::new(100);
    for i in 0..10 {
        bus.publish(RollupEvent::TransactionSubmitted { tx_hash: format!("tx{}", i), timestamp: i });
    }
    let history = bus.get_history(Some(5));
    assert_eq!(history.len(), 5);
}

#[test]
fn test_history_limit() {
    let mut bus = EventBus::new(5);
    for i in 0..10 {
        bus.publish(RollupEvent::TransactionSubmitted { tx_hash: format!("tx{}", i), timestamp: i });
    }
    let history = bus.get_history(None);
    assert_eq!(history.len(), 5);
    assert_eq!(history[0].timestamp(), 5);
    assert_eq!(history[4].timestamp(), 9);
}

#[test]
fn unfiltered_subscriber_gets_everything_and_unsubscribe() {
    let mut bus = EventBus::new(10);
    let all = bus.subscribe(None);
    let fees = bus.subscribe(Some(EventFilter::FeeEvents));
    let r = bus.publish(RollupEvent::FeeUpdated { old_base_fee: 1, new_base_fee: 2, timestamp: 0 });
    assert_eq!(r, vec![all, fees]);
    bus.unsubscribe(all);
    assert_eq!(bus.subscriber_count(), 1);
    let r = bus.publish(RollupEvent::Error { message: "x".to_string(), timestamp: 1 });
    assert!(r.is_empty());
    assert_eq!(bus.get_history_filtered(EventFilter::FeeEvents, None).len(), 1);
}

#[test]
fn subscription_ids_are_version_four() {
    let mut bus = EventBus::new(10);
    let id = bus.subscribe(None);
    assert_eq!((id >> 76) & 0xF, 4);
    assert_eq!((id >> 62) & 0x3, 2);
}

#[test]
fn test_fee_calculation() {
    let oracle = GasPriceOracle::default();
    let fee = oracle.calculate_fee(100_000, FeeTier::Standard, 500);
    assert!(fee.total_fee > 0);
    assert!(fee.execution_fee > 0);
    assert_eq!(fee.total_fee, fee.execution_fee + fee.data_fee + fee.priority_fee);
}

#[test]
fn test_fee_tiers() {
    let oracle = GasPriceOracle::default();
    let economy = oracle.calculate_fee(100_000, FeeTier::Economy, 500);
    let instant = oracle.calculate_fee(100_000, FeeTier::Instant, 500);
    assert!(instant.total_fee > economy.total_fee);
}

#[test]
fn test_congestion_multiplier() {
    let mut oracle = GasPriceOracle::default();
    oracle.update_congestion(950_000);
    let fee_high = oracle.calculate_fee(100_000, FeeTier::Standard, 500);
    oracle.update_congestion(300_000);
    let fee_low = oracle.calculate_fee(100_000, FeeTier::Standard, 500);
    assert!(fee_high.total_fee > fee_low.total_fee);
}

#[test]
fn test_fee_market() {
    let oracle = GasPriceOracle::default();
    let mut market = FeeMarket::new(oracle);
    let fee = market.collect_fee(100_000, FeeTier::Standard, 500);
    assert_eq!(market.get_total_fees_collected(), fee.total_fee);
    assert!(market.get_total_fees_burned() > 0);
}

#[test]
fn base_fee_is_clamped() {
    let mut oracle = GasPriceOracle::new(1000, 100, 5000);
    oracle.update_base_fee(10);
    assert_eq!(oracle.get_base_fee(), 100);
    oracle.update_base_fee(1_000_000);
    assert_eq!(oracle.get_base_fee(), 5000);
}

fn proposal_args(gov: &mut GovernanceSystem, now: u64) -> Result<rollup_core::governance::Proposal, GovError> {
    gov.create_proposal_at(
        "proposer1".to_string(),
        "Test".to_string(),
        "Desc".to_string(),
        ProposalType::EmergencyPause,
        2000,
        500,
        600_000,
        now,
    )
}

#[test]
fn test_proposal_creation() {
    let mut gov = GovernanceSystem::new(1000, 86400, 3600);
    let proposal = gov
        .create_proposal(
            "proposer1".to_string(),
            "Test Proposal".to_string(),
            "Description".to_string(),
            ProposalType::ParameterChange { parameter_name: "test_param".to_string(), new_value: "100".to_string() },
            2000,
            500,
            600_000,
        )
        .unwrap();
    assert_eq!(proposal.proposal_id, 0);
    assert_eq!(proposal.status, ProposalStatus::Pending);
}

#[test]
fn test_voting() {
    let mut gov = GovernanceSystem::new(1000, 86400, 0);
    let proposal = proposal_args(&mut gov, 1000).unwrap();
    gov.vote_at(0, "voter1".to_string(), 300, VoteChoice::Yes, proposal.voting_starts_at).unwrap();
    let proposal = gov.get_proposal(0).unwrap();
    assert_eq!(proposal.yes_votes, 300);
}

#[test]
fn governance_errors_and_revote() {
    let mut gov = GovernanceSystem::new(1000, 100, 0);
    let low = gov.create_proposal_at(
        "p".to_string(),
        "t".to_string(),
        "d".to_string(),
        ProposalType::EmergencyPause,
        10,
        1,
        500_000,
        0,
    );
    assert_eq!(low.unwrap_err(), GovError::InsufficientVotingPower { voting_power: 10, minimum: 1000 });
    let p = proposal_args(&mut gov, 0).unwrap();
    let start = p.voting_starts_at;
    assert_eq!(gov.vote_at(0, "v".to_string(), 1, VoteChoice::Yes, start - 1), Err(GovError::VotingNotStarted));
    assert_eq!(gov.vote_at(9, "v".to_string(), 1, VoteChoice::Yes, start), Err(GovError::ProposalNotFound));
    gov.vote_at(0, "v".to_string(), 300, VoteChoice::Yes, start).unwrap();
    gov.vote_at(0, "v".to_string(), 200, VoteChoice::No, start).unwrap();
    let p = gov.get_proposal(0).unwrap();
    assert_eq!((p.yes_votes, p.no_votes, p.total_voting_power), (0, 200, 2000));
    assert_eq!(gov.vote_at(0, "w".to_string(), 1, VoteChoice::Yes, p.voting_ends_at + 1), Err(GovError::VotingEnded));
}

#[test]
fn governance_finalize_outcomes() {
    let mut gov = GovernanceSystem::new(1000, 100, 0);
    let p = proposal_args(&mut gov, 0).unwrap();
    let start = p.voting_starts_at;
    gov.vote_at(0, "a".to_string(), 400, VoteChoice::Yes, start).unwrap();
    gov.vote_at(0, "b".to_string(), 200, VoteChoice::No, start).unwrap();
    assert_eq!(gov.finalize_proposal_at(0, start), Err(GovError::VotingNotEnded));
    let status = gov.finalize_proposal_at(0, p.voting_ends_at + 1).unwrap();
    assert_eq!(status, ProposalStatus::Passed);
    assert_eq!(gov.finalize_proposal_at(0, p.voting_ends_at + 2), Ok(ProposalStatus::Passed));
}

#[test]
fn burn_never_exceeds_collected() {
    let mut market = FeeMarket::new(GasPriceOracle::default());
    for tier in [FeeTier::Economy, FeeTier::Standard, FeeTier::Fast, FeeTier::Instant] {
        let fee = market.collect_fee(250_000, tier, 1000);
        assert!(fee.execution_fee / 2 <= fee.total_fee);
    }
    assert!(market.get_total_fees_burned() <= market.get_total_fees_collected());
}

#[test]
fn congestion_tiers_start_at_their_boundaries() {
    let mut oracle = GasPriceOracle::default();
    oracle.update_congestion(900_000);
    let f = oracle.calculate_fee(100_000, FeeTier::Standard, 500);
    assert_eq!(f.gas_price, 10000);
    assert_eq!(f.execution_fee, 1000);
    assert_eq!(f.data_fee, 500);
    assert_eq!(f.priority_fee, 500);
    assert_eq!(f.total_fee, 2000);
    oracle.update_congestion(700_000);
    assert_eq!(oracle.calculate_fee(100_000, FeeTier::Standard, 500).gas_price, 7500);
    oracle.update_congestion(500_000);
    assert_eq!(oracle.calculate_fee(100_000, FeeTier::Standard, 500).gas_price, 6000);
    oracle.update_congestion(499_999);
    assert_eq!(oracle.calculate_fee(100_000, FeeTier::Standard, 500).gas_price, 5000);
}
