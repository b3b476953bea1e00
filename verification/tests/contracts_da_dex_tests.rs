use rollup_core::contracts::{ContractABI, ContractError, ContractManager, VerificationInfo};
use rollup_core::data_availability::{DACommitment, DataAvailabilityLayer, DataBlob};
use rollup_core::dex::{DEXManager, DexError};
use rollup_core::hash_utils;

fn deploy(manager: &mut ContractManager, code: Vec<u8>) -> String {
    manager.deploy_contract("deployer1".to_string(), code, hash_utils::Hash::new(b"tx1")).unwrap().address
}

#[test]
fn test_contract_deployment() {
    let mut manager = ContractManager::new();
    let contract = manager
        .deploy_contract("deployer1".to_string(), vec![1, 2, 3, 4], hash_utils::Hash::new(b"tx1"))
        .unwrap();
    assert!(contract.address.starts_with("contract_"));
    assert!(!contract.is_verified);
    let retrieved = manager.get_contract(&contract.address).unwrap();
    assert_eq!(retrieved.deployer, "deployer1");
}

#[test]
fn test_abi_registration() {
    let mut manager = ContractManager::new();
    let address = deploy(&mut manager, vec![1, 2, 3]);
    let abi = ContractABI {
        contract_address: address.clone(),
        abi: "{}".to_string(),
        functions: vec![],
        events: vec![],
        constructor: None,
    };
    manager.register_abi(abi).unwrap();
    let retrieved_abi = manager.get_abi(&address).unwrap();
    assert_eq!(retrieved_abi.contract_address, address);
}

#[test]
fn test_contract_verification() {
    let mut manager = ContractManager::new();
    let address = deploy(&mut manager, vec![1, 2, 3]);
    let verification = VerificationInfo {
        contract_address: address.clone(),
        source_code: "contract Test {}".to_string(),
        compiler_version: "0.8.0".to_string(),
        optimization_enabled: true,
        optimization_runs: 200,
        verified_at: 0,
        verifier: "admin".to_string(),
    };
    manager.verify_contract(verification).unwrap();
    let updated = manager.get_contract(&address).unwrap();
    assert!(updated.is_verified);
}

#[test]
fn test_contract_calls() {
    let mut manager = ContractManager::new();
    let address = deploy(&mut manager, vec![1, 2, 3]);
    manager.record_call(&address, 100).unwrap();
    manager.record_call(&address, 150).unwrap();
    let updated = manager.get_contract(&address).unwrap();
    assert_eq!(updated.total_calls, 2);
    assert_eq!(updated.total_gas_used, 250);
}

#[test]
fn contract_errors_and_listing() {
    let mut manager = ContractManager::new();
    assert_eq!(manager.record_call("missing", 1), Err(ContractError::ContractNotFound));
    let a = deploy(&mut manager, vec![1]);
    let b = deploy(&mut manager, vec![2]);
    assert_ne!(a, b);
    assert_eq!(manager.get_all_contracts().len(), 2);
    assert_eq!(manager.get_contracts_by_deployer("deployer1").len(), 2);
    assert_eq!(manager.get_contracts_by_deployer("other").len(), 0);
    assert_eq!(manager.get_verified_contracts().len(), 0);
    let code_hash = manager.get_contract(&a).unwrap().code_hash;
    assert_eq!(code_hash, hash_utils::Hash::new(&[1]));
}

#[test]
fn test_data_blob_creation() {
    let data = vec![1, 2, 3, 4, 5];
    let blob = DataBlob::new(1, data.clone());
    assert_eq!(blob.batch_id, 1);
    assert_eq!(blob.data, data);
    assert!(blob.verify());
}

#[test]
fn test_data_availability_layer() {
    let mut dal = DataAvailabilityLayer::new();
    let blob1 = DataBlob::new(1, vec![1, 2, 3]);
    let blob2 = DataBlob::new(2, vec![4, 5, 6]);
    dal.store(blob1.duplicate()).unwrap();
    dal.store(blob2.duplicate()).unwrap();
    assert!(dal.is_available(1));
    assert!(dal.is_available(2));
    assert!(!dal.is_available(3));
    let retrieved = dal.get_by_batch_id(1).unwrap();
    assert_eq!(retrieved.batch_id, blob1.batch_id);
    assert_eq!(retrieved.data, blob1.data);
}

#[test]
fn test_dal_pruning() {
    let mut dal = DataAvailabilityLayer::new();
    for i in 0..10 {
        let blob = DataBlob::new(i, vec![i as u8]);
        dal.store(blob).unwrap();
    }
    assert_eq!(dal.get_all_batch_ids().len(), 10);
    let pruned = dal.prune_before(5);
    assert_eq!(pruned, 5);
    assert_eq!(dal.get_all_batch_ids().len(), 5);
    assert!(!dal.is_available(0));
    assert!(dal.is_available(5));
}

#[test]
fn test_da_commitment() {
    let blob = DataBlob::new(1, vec![1, 2, 3, 4, 5]);
    let commitment = DACommitment::from_blob(&blob);
    assert!(commitment.verify(&blob));
}

#[test]
fn keccak_known_value_and_tamper() {
    let blob = DataBlob::new(7, vec![]);
    assert_eq!(
        blob.hash[..4],
        [0xc5, 0xd2, 0x46, 0x01]
    );
    let mut bad = DataBlob::new(8, vec![1, 2]);
    bad.data = vec![3];
    assert!(!bad.verify());
    let mut dal = DataAvailabilityLayer::new();
    assert!(dal.store(bad).is_err());
    assert!(!dal.is_available(8));
}

#[test]
fn da_lookup_by_hash_and_sorted_ids() {
    let mut dal = DataAvailabilityLayer::new();
    let b = DataBlob::new(3, vec![9]);
    let h = b.hash;
    dal.store(b).unwrap();
    dal.store(DataBlob::new(1, vec![8])).unwrap();
    assert_eq!(dal.get_by_hash(&h).unwrap().batch_id, 3);
    assert_eq!(dal.get_all_batch_ids(), vec![1, 3]);
    let st = dal.get_stats();
    assert_eq!(st.total_blobs, 2);
    assert_eq!(st.total_bytes, 2);
}

fn pool(dex: &mut DEXManager) {
    dex.create_pool("ETH/USDC".to_string(), "ETH".to_string(), "USDC".to_string(), 1000, 2000000, 3000)
        .unwrap();
}

#[test]
fn test_pool_creation() {
    let mut dex = DEXManager::new();
    let pool = dex
        .create_pool("ETH/USDC".to_string(), "ETH".to_string(), "USDC".to_string(), 1000, 2000000, 3000)
        .unwrap();
    assert_eq!(pool.token_a, "ETH");
    assert_eq!(pool.token_b, "USDC");
    assert!(pool.total_liquidity > 0);
}

#[test]
fn test_swap() {
    let mut dex = DEXManager::new();
    pool(&mut dex);
    let trade = dex.swap("ETH/USDC", "trader1".to_string(), "ETH".to_string(), 10, 1).unwrap();
    assert_eq!(trade.token_in, "ETH");
    assert_eq!(trade.token_out, "USDC");
    assert!(trade.amount_out > 0);
}

#[test]
fn test_add_liquidity() {
    let mut dex = DEXManager::new();
    pool(&mut dex);
    let liquidity = dex.add_liquidity("ETH/USDC", 100, 200000).unwrap();
    assert!(liquidity > 0);
    let pool = dex.get_pool("ETH/USDC").unwrap();
    assert_eq!(pool.reserve_a, 1100);
    assert_eq!(pool.reserve_b, 2200000);
}

#[test]
fn test_quote() {
    let mut dex = DEXManager::new();
    pool(&mut dex);
    let quote = dex.get_quote("ETH/USDC", "ETH", 10).unwrap();
    assert!(quote > 0);
}

#[test]
fn swap_exact_amount_and_reserves() {
    let mut dex = DEXManager::new();
    pool(&mut dex);
    let quote = dex.get_quote("ETH/USDC", "ETH", 10).unwrap();
    // 10 in, 0.3% fee: 9 after fee (rounded down); out = 2000000 * 9 / (1000 + 9)
    assert_eq!(quote, 2000000 * 9 / 1009);
    let trade = dex.swap("ETH/USDC", "t".to_string(), "ETH".to_string(), 10, 1).unwrap();
    assert_eq!(trade.amount_out, quote);
    let p = dex.get_pool("ETH/USDC").unwrap();
    assert_eq!(p.reserve_a, 1010);
    assert_eq!(p.reserve_b, 2000000 - quote);
}

#[test]
fn dex_errors() {
    let mut dex = DEXManager::new();
    pool(&mut dex);
    assert_eq!(
        dex.create_pool("ETH/USDC".to_string(), "A".to_string(), "B".to_string(), 1, 1, 0).unwrap_err(),
        DexError::PoolAlreadyExists
    );
    assert_eq!(
        dex.create_pool("X".to_string(), "A".to_string(), "B".to_string(), 0, 1, 0).unwrap_err(),
        DexError::ZeroInitialReserve
    );
    assert_eq!(dex.get_quote("nope", "ETH", 1).unwrap_err(), DexError::PoolNotFound);
    assert_eq!(dex.get_quote("ETH/USDC", "BTC", 1).unwrap_err(), DexError::TokenNotInPool);
    let r = dex.swap("ETH/USDC", "t".to_string(), "ETH".to_string(), 10, 1_000_000);
    assert!(matches!(r, Err(DexError::InsufficientOutput { .. })));
}

#[test]
fn swap_never_lowers_reserve_product() {
    let mut dex = DEXManager::new();
    pool(&mut dex);
    let before = dex.get_pool("ETH/USDC").unwrap();
    let k0 = before.reserve_a as u128 * before.reserve_b as u128;
    dex.swap("ETH/USDC", "t".to_string(), "USDC".to_string(), 500_000, 1).unwrap();
    let after = dex.get_pool("ETH/USDC").unwrap();
    assert!(after.reserve_a > 0 && after.reserve_b > 0);
    assert!(after.reserve_a as u128 * after.reserve_b as u128 >= k0);
}

#[test]
fn blob_read_after_store_and_commitment() {
    let mut dal = DataAvailabilityLayer::new();
    dal.store(DataBlob::new(4, vec![1])).unwrap();
    dal.store(DataBlob::new(4, vec![2, 3])).unwrap();
    assert_eq!(dal.get_by_batch_id(4).unwrap().data, vec![2, 3]);
    let blob = DataBlob::new(5, vec![9, 9]);
    let c = DACommitment::from_blob(&blob);
    assert!(c.verify(&blob));
    assert!(!c.verify(&DataBlob::new(5, vec![9])));
}
