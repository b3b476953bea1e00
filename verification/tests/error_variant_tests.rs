use rollup_core::governance::{GovError, GovernanceSystem, ParameterType, ProposalStatus, ProposalType, VoteChoice};
use rollup_core::hash_utils;
use rollup_core::hash_utils::HexError;
use rollup_core::oracle::{Oracle, OracleError, OracleManager, OracleType};
use rollup_core::replay_protection::{NonceError, NonceManager};
use rollup_core::tracing::{DebugAPI, TraceError, TransactionTracer};
use rollup_core::tx_pool::{PoolError, TransactionPool};
use rollup_core::types::Transaction;
use rollup_core::validator::{ValidatorError, ValidatorManager};

fn param_change(name: &str) -> ProposalType {
    ProposalType::ParameterChange { parameter_name: name.to_string(), new_value: "7".to_string() }
}

fn passed_proposal(gov: &mut GovernanceSystem, kind: ProposalType) -> (u64, u64) {
    let p = gov
        .create_proposal_at("p".to_string(), "t".to_string(), "d".to_string(), kind, 2000, 1, 500_000, 0)
        .unwrap();
    gov.vote_at(p.proposal_id, "v".to_string(), 10, VoteChoice::Yes, p.voting_starts_at).unwrap();
    let status = gov.finalize_proposal_at(p.proposal_id, p.voting_ends_at + 1).unwrap();
    assert_eq!(status, ProposalStatus::Passed);
    (p.proposal_id, p.voting_ends_at + 1)
}

#[test]
fn governance_threshold_and_activity_errors() {
    let mut gov = GovernanceSystem::new(1000, 100, 50);
    let r = gov.create_proposal_at("p".to_string(), "t".to_string(), "d".to_string(), ProposalType::EmergencyPause, 2000, 1, 1_000_001, 0);
    assert_eq!(r.unwrap_err(), GovError::InvalidThreshold);
    let (id, finalized_at) = passed_proposal(&mut gov, ProposalType::EmergencyPause);
    let start = gov.get_proposal(id).unwrap().voting_starts_at;
    assert_eq!(gov.vote_at(id, "w".to_string(), 1, VoteChoice::No, start), Err(GovError::ProposalNotActive));
    assert_eq!(
        gov.execute_proposal_at(id, finalized_at),
        Err(GovError::ExecutionDelayNotMet { available_at: finalized_at + 50 })
    );
    assert_eq!(gov.execute_proposal_at(id, finalized_at + 50), Ok(()));
    assert_eq!(gov.get_proposal(id).unwrap().status, ProposalStatus::Executed);
    assert_eq!(gov.finalize_proposal_at(id, finalized_at + 60), Err(GovError::AlreadyFinalized));
}

#[test]
fn governance_parameter_errors() {
    let mut gov = GovernanceSystem::new(1000, 100, 0);
    let (id, at) = passed_proposal(&mut gov, param_change("fee"));
    assert_eq!(gov.execute_proposal_at(id, at), Err(GovError::ParameterNotFound));
    gov.register_parameter_at("fee".to_string(), "1".to_string(), ParameterType::Integer, None, None, at).unwrap();
    assert_eq!(
        gov.register_parameter_at("fee".to_string(), "2".to_string(), ParameterType::Integer, None, None, at),
        Err(GovError::ParameterExists)
    );
    assert_eq!(gov.execute_proposal_at(id, at), Ok(()));
    assert_eq!(gov.get_parameter("fee").unwrap().value, "7");
}

#[test]
fn governance_rejected_is_not_passed() {
    let mut gov = GovernanceSystem::new(1000, 100, 0);
    let p = gov
        .create_proposal_at("p".to_string(), "t".to_string(), "d".to_string(), ProposalType::EmergencyPause, 2000, 100, 500_000, 0)
        .unwrap();
    assert_eq!(gov.finalize_proposal_at(p.proposal_id, p.voting_ends_at + 1), Ok(ProposalStatus::Rejected));
    assert_eq!(gov.execute_proposal_at(p.proposal_id, p.voting_ends_at + 1), Err(GovError::NotPassed));
}

#[test]
fn oracle_low_confidence() {
    let mut manager = OracleManager::new();
    let oracle = Oracle {
        oracle_id: "o".to_string(),
        oracle_type: OracleType::PriceFeed,
        provider: "p".to_string(),
        is_active: true,
        total_updates: 0,
        last_update: 0,
        reliability_score: 1_000_000,
    };
    manager.register_oracle(oracle).unwrap();
    manager.update_price_at("o".to_string(), "S".to_string(), 5, 0, 600_000, 10).unwrap();
    assert_eq!(manager.get_fresh_price_at("S", 100, 20), Err(OracleError::LowConfidence { confidence: 600_000 }));
}

#[test]
fn nonce_errors() {
    let mut manager = NonceManager::new(100);
    let h = hash_utils::Hash::new(b"t");
    assert_eq!(
        manager.record_transaction_at("a", h, 3, 1000),
        Err(NonceError::InvalidNonce { expected: 1, got: 3 })
    );
    manager.record_transaction_at("a", h, 1, 1000).unwrap();
    assert_eq!(manager.record_transaction_at("a", h, 2, 1000), Err(NonceError::AlreadyProcessed));
}

#[test]
fn hex_errors() {
    assert_eq!(hash_utils::Hash::from_string("abc").unwrap_err(), HexError::OddLength);
    assert_eq!(hash_utils::Hash::from_string("abcd").unwrap_err(), HexError::InvalidStringLength);
    let mut bad = "00".repeat(32);
    bad.replace_range(4..5, "g");
    assert_eq!(hash_utils::Hash::from_string(&bad).unwrap_err(), HexError::InvalidHexCharacter { c: 'g', index: 4 });
}

#[test]
fn trace_not_found() {
    let api = DebugAPI::new(TransactionTracer::new(true));
    assert_eq!(api.debug_transaction(hash_utils::Hash::new(b"x")).unwrap_err(), TraceError::TraceNotFound);
    assert_eq!(api.get_call_stack(hash_utils::Hash::new(b"x")).unwrap_err(), TraceError::TraceNotFound);
}

#[test]
fn pool_account_limit() {
    let mut pool = TransactionPool::new(10, 1);
    let tx = |nonce: u64| Transaction {
        from: "a".to_string(),
        to: None,
        value: 1,
        data: vec![],
        nonce,
        gas_limit: 21000,
        max_fee_per_gas: 1,
    };
    pool.add(tx(0)).unwrap();
    assert_eq!(pool.add(tx(1)).unwrap_err(), PoolError::AccountLimitExceeded);
}

#[test]
fn validator_error_variants() {
    let mut m = ValidatorManager::new(1000);
    assert_eq!(
        m.register_validator_at("v".to_string(), "k".to_string(), 10, 0, 0).unwrap_err(),
        ValidatorError::StakeBelowMinimum
    );
    assert_eq!(
        m.register_validator_at("v".to_string(), "k".to_string(), 2000, 1_000_001, 0).unwrap_err(),
        ValidatorError::InvalidCommissionRate
    );
    assert_eq!(m.distribute_rewards_at(1, 10, 0).unwrap_err(), ValidatorError::NoActiveValidators);
    m.register_validator_at("v".to_string(), "k".to_string(), 2000, 0, 0).unwrap();
    assert_eq!(
        m.register_validator_at("v".to_string(), "k".to_string(), 2000, 0, 0).unwrap_err(),
        ValidatorError::AlreadyRegistered
    );
    assert_eq!(
        m.unbond_stake_at("u".to_string(), "v".to_string(), 1, 0).unwrap_err(),
        ValidatorError::StakeNotFound
    );
    m.delegate_stake_at("u".to_string(), "v".to_string(), 5, 0).unwrap();
    assert_eq!(
        m.unbond_stake_at("u".to_string(), "v".to_string(), 6, 0).unwrap_err(),
        ValidatorError::InsufficientStake
    );
    assert_eq!(m.unbond_stake_at("u".to_string(), "v".to_string(), 5, 0), Ok(604_800));
}

#[test]
fn clock_reading_calls_check_their_inputs_first() {
    let mut gov = GovernanceSystem::new(1000, 100, 0);
    assert_eq!(gov.finalize_proposal(42), Err(GovError::ProposalNotFound));
    let low = gov.create_proposal(
        "p".to_string(),
        "t".to_string(),
        "d".to_string(),
        ProposalType::EmergencyPause,
        10,
        0,
        500_000,
    );
    assert_eq!(low.unwrap_err(), GovError::InsufficientVotingPower { voting_power: 10, minimum: 1000 });
    let bad = gov.create_proposal(
        "p".to_string(),
        "t".to_string(),
        "d".to_string(),
        ProposalType::EmergencyPause,
        2000,
        0,
        1_000_001,
    );
    assert_eq!(bad.unwrap_err(), GovError::InvalidThreshold);

    let mut nonces = NonceManager::new(100);
    let h = hash_utils::Hash::new(b"dup");
    assert_eq!(nonces.record_transaction("a", h, 5), Err(NonceError::InvalidNonce { expected: 1, got: 5 }));
    nonces.record_transaction("a", h, 1).unwrap();
    assert_eq!(nonces.record_transaction("a", h, 2), Err(NonceError::AlreadyProcessed));

    let mut m = ValidatorManager::new(1000);
    assert_eq!(m.unbond_stake("u".to_string(), "v".to_string(), 1).unwrap_err(), ValidatorError::StakeNotFound);
}
