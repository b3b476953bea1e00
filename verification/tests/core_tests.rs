use rollup_core::compression::{BatchCompressor, CompressionAlgorithm, CompressionEngine};
use rollup_core::fraud_proofs::{FraudClaim, FraudEvidence, FraudProofManager};
use rollup_core::hash_utils;
use rollup_core::hash_utils::Hasher;
use rollup_core::merkle::MerkleTree;
use rollup_core::sequencer::{SequencerAction, SequencerConfig, SequencerEvent, SequencerState};

#[test]
fn test_hash_creation() {
    let data = b"test data";
    let hash1 = hash_utils::Hash::new(data);
    let hash2 = hash_utils::Hash::new(data);
    assert_eq!(hash1, hash2);
}

#[test]
fn test_hash_string_conversion() {
    let hash = hash_utils::Hash::new(b"test");
    let s = hash.to_string();
    let hash2 = hash_utils::Hash::from_string(&s).unwrap();
    assert_eq!(hash, hash2);
}

#[test]
fn test_hasher() {
    let mut hasher = Hasher::new();
    hasher.update(b"hello");
    hasher.update(b"world");
    let _hash = hasher.finalize();
}

#[test]
fn hasher_equals_hash_of_concatenation() {
    let mut hasher = Hasher::new();
    hasher.update(b"hello");
    hasher.update(b"world");
    assert_eq!(hasher.finalize(), hash_utils::Hash::new(b"helloworld"));
}

#[test]
fn sha256_known_value() {
    let h = hash_utils::Hash::new(b"abc");
    assert_eq!(
        h.to_string(),
        "ba7816bf8f01cfea414140de5dae2223b00361a396177a9cb410ff61f20015ad"
    );
}

#[test]
fn hash_wrapper_does_not_return_input() {
    let h = hash_utils::Hash::new(b"abc");
    assert_ne!(&h.as_bytes()[..3], b"abc");
}

#[test]
fn hex_string_errors() {
    assert!(hash_utils::Hash::from_string("abc").is_err());
    assert!(hash_utils::Hash::from_string(&"zz".repeat(32)).is_err());
    assert!(hash_utils::Hash::from_string(&"00".repeat(31)).is_err());
    assert!(hash_utils::Hash::from_string(&"00".repeat(32)).is_ok());
}

#[test]
fn default_hash_is_zero() {
    assert_eq!(hash_utils::Hash::default().as_bytes(), &[0u8; 32]);
}

#[test]
fn test_merkle_tree_single_leaf() {
    let leaf = hash_utils::Hash::new(b"test");
    let tree = MerkleTree::new(vec![leaf]);
    assert_eq!(tree.root(), leaf);
}

#[test]
fn test_merkle_tree_multiple_leaves() {
    let leaves = vec![
        hash_utils::Hash::new(b"leaf1"),
        hash_utils::Hash::new(b"leaf2"),
        hash_utils::Hash::new(b"leaf3"),
        hash_utils::Hash::new(b"leaf4"),
    ];
    let tree = MerkleTree::new(leaves.clone());
    assert_ne!(tree.root(), hash_utils::Hash::default());
}

#[test]
fn test_merkle_proof() {
    let leaves = vec![
        hash_utils::Hash::new(b"leaf1"),
        hash_utils::Hash::new(b"leaf2"),
        hash_utils::Hash::new(b"leaf3"),
        hash_utils::Hash::new(b"leaf4"),
    ];
    let tree = MerkleTree::new(leaves.clone());
    let proof = tree.get_proof(0).unwrap();
    assert!(MerkleTree::verify_proof(leaves[0], &proof, tree.root()));
}

#[test]
fn merkle_every_leaf_proves() {
    let leaves: Vec<hash_utils::Hash> = (0u8..4).map(|i| hash_utils::Hash::new(&[i])).collect();
    let tree = MerkleTree::new(leaves.clone());
    for (i, leaf) in leaves.iter().enumerate() {
        let proof = tree.get_proof(i).unwrap();
        assert!(MerkleTree::verify_proof(*leaf, &proof, tree.root()));
    }
    assert!(tree.get_proof(4).is_none());
}

#[test]
fn merkle_odd_level_proof_pairs_node_with_itself() {
    let leaves: Vec<hash_utils::Hash> = (0u8..5).map(|i| hash_utils::Hash::new(&[i])).collect();
    let tree = MerkleTree::new(leaves.clone());
    for (i, leaf) in leaves.iter().enumerate() {
        let p = tree.get_proof(i).unwrap();
        assert_eq!(p.len(), 3);
        assert!(MerkleTree::verify_proof(*leaf, &p, tree.root()));
    }
    let p4 = tree.get_proof(4).unwrap();
    let p5 = tree.get_proof(5).unwrap();
    assert_eq!(p4[1], p5[1]);
    assert!(tree.get_proof(6).is_none());
}

#[test]
fn merkle_every_leaf_of_seven_verifies() {
    let leaves: Vec<hash_utils::Hash> = (0u8..7).map(|i| hash_utils::Hash::new(&[i, 1])).collect();
    let tree = MerkleTree::new(leaves.clone());
    for (i, leaf) in leaves.iter().enumerate() {
        let p = tree.get_proof(i).unwrap();
        assert!(MerkleTree::verify_proof(*leaf, &p, tree.root()));
    }
}

#[test]
fn merkle_wrong_leaf_fails() {
    let leaves = vec![hash_utils::Hash::new(b"a"), hash_utils::Hash::new(b"b")];
    let tree = MerkleTree::new(leaves);
    let proof = tree.get_proof(0).unwrap();
    assert!(!MerkleTree::verify_proof(hash_utils::Hash::new(b"c"), &proof, tree.root()));
}

#[test]
fn merkle_two_leaves_root_is_pair_hash() {
    let a = hash_utils::Hash::new(b"a");
    let b = hash_utils::Hash::new(b"b");
    let tree = MerkleTree::new(vec![a, b]);
    let (lo, hi) = if a.as_bytes() <= b.as_bytes() { (a, b) } else { (b, a) };
    let mut h = Hasher::new();
    h.update(lo.as_bytes());
    h.update(hi.as_bytes());
    assert_eq!(tree.root(), h.finalize());
}

#[test]
fn merkle_empty_tree_root_is_default() {
    let tree = MerkleTree::new(vec![]);
    assert_eq!(tree.root(), hash_utils::Hash::default());
}

fn evidence(witnesses: Vec<String>) -> FraudEvidence {
    FraudEvidence {
        pre_state_proof: vec![hash_utils::Hash::new(b"test")],
        post_state_proof: vec![hash_utils::Hash::new(b"test2")],
        transaction_data: vec![1, 2, 3],
        witnesses,
    }
}

#[test]
fn test_fraud_proof_submission() {
    let mut manager = FraudProofManager::default();
    let claim = FraudClaim::InvalidNonce { expected: 1, actual: 5 };
    let proof_id = manager.submit_fraud_proof(1, 0, claim, evidence(vec!["witness1".to_string()]));
    assert_eq!(proof_id, 0);
    assert!(manager.get_proof(proof_id).is_some());
}

#[test]
fn test_fraud_proof_verification() {
    let mut manager = FraudProofManager::default();
    let claim = FraudClaim::InvalidNonce { expected: 1, actual: 5 };
    let proof_id = manager.submit_fraud_proof(1, 0, claim, evidence(vec![]));
    let result = manager.verify_proof(proof_id);
    assert!(result.is_ok());
}

#[test]
fn fraud_proof_claims_checked() {
    let mut manager = FraudProofManager::new(100);
    let same = manager.submit_fraud_proof(1, 0, FraudClaim::InvalidNonce { expected: 3, actual: 3 }, evidence(vec![]));
    assert_eq!(manager.verify_proof(same), Ok(false));
    let h = hash_utils::Hash::new(b"x");
    let st = manager.submit_fraud_proof(
        1,
        0,
        FraudClaim::InvalidStateTransition { expected_post_state: h, actual_post_state: hash_utils::Hash::new(b"y") },
        evidence(vec![]),
    );
    assert_eq!(manager.verify_proof(st), Ok(true));
    let empty = FraudEvidence { pre_state_proof: vec![], post_state_proof: vec![h], transaction_data: vec![], witnesses: vec![] };
    let st2 = manager.submit_fraud_proof(
        1,
        0,
        FraudClaim::InvalidStateTransition { expected_post_state: h, actual_post_state: hash_utils::Hash::new(b"y") },
        empty,
    );
    assert_eq!(manager.verify_proof(st2), Ok(false));
    assert!(manager.verify_proof(99).is_err());
    manager.resolve_proof(same, true);
    assert!(manager.get_proof(same).is_none());
    assert!(manager.get_proof(st).is_some());
}

#[test]
fn fraud_proof_activity_window() {
    let mut manager = FraudProofManager::new(100);
    let id = manager.submit_fraud_proof(1, 0, FraudClaim::DoubleSpend, evidence(vec![]));
    let ts = manager.get_proof(id).unwrap().timestamp;
    assert_eq!(manager.get_active_proofs_at(ts + 50).len(), 1);
    assert_eq!(manager.get_active_proofs_at(ts + 100).len(), 0);
}

#[test]
fn test_gzip_compression() {
    let engine = CompressionEngine::default();
    let data = b"Hello, World! ".repeat(100);
    let compressed = engine.compress(&data).unwrap();
    assert!(compressed.compressed_size < data.len());
    let decompressed = engine.decompress(&compressed).unwrap();
    assert_eq!(decompressed, data);
}

#[test]
fn test_compression_algorithms() {
    let engine = CompressionEngine::default();
    let data = b"Test data ".repeat(50);
    for algorithm in [CompressionAlgorithm::Gzip, CompressionAlgorithm::Zlib] {
        let compressed = engine.compress_with_algorithm(&data, algorithm).unwrap();
        let decompressed = engine.decompress(&compressed).unwrap();
        assert_eq!(decompressed, data);
    }
}

#[test]
fn test_best_compression() {
    let engine = CompressionEngine::default();
    let data = b"Highly compressible data ".repeat(100);
    let best = engine.find_best_compression(&data).unwrap();
    assert!(best.compression_ratio < 1_000_000);
}

#[test]
fn test_batch_compressor() {
    let compressor = BatchCompressor::new(true);
    let data = b"Batch data ".repeat(50);
    let compressed = compressor.compress_batch_data(&data).unwrap();
    let decompressed = compressor.decompress_batch_data(&compressed).unwrap();
    assert_eq!(decompressed, data);
}

#[test]
fn test_compression_savings() {
    let compressor = BatchCompressor::new(true);
    let data = b"Compressible ".repeat(100);
    let savings = compressor.calculate_savings(&data).unwrap();
    assert!(savings.space_saved_bytes > 0);
    assert!(savings.space_saved_percent > 0);
}

#[test]
fn uncompressed_roundtrip_and_ratio() {
    let engine = CompressionEngine::default();
    let data = b"abcdef".to_vec();
    let c = engine.compress_with_algorithm(&data, CompressionAlgorithm::Uncompressed).unwrap();
    assert_eq!(c.data, data);
    assert_eq!(c.compression_ratio, 1_000_000);
    assert_eq!(engine.decompress(&c).unwrap(), data);
}

#[test]
fn gzip_output_differs_from_input() {
    let engine = CompressionEngine::default();
    let data = b"zzzzzzzzzzzzzzzzzzzzzzzzzzzzzz".to_vec();
    let c = engine.compress_with_algorithm(&data, CompressionAlgorithm::Gzip).unwrap();
    assert_ne!(c.data, data);
    let z = engine.compress_with_algorithm(&data, CompressionAlgorithm::Zlib).unwrap();
    assert_ne!(z.data, data);
}

#[test]
fn test_sequencer_config() {
    let config = SequencerConfig::default();
    assert_eq!(config.max_batch_size, 10);
    assert!(!config.enable_settlement);
}

#[test]
fn sequencer_settles_at_batch_size() {
    let config = SequencerConfig { max_batch_size: 2, rpc_url: String::new(), enable_settlement: true };
    let s = SequencerState::new();
    let (s, a) = s.step(&config, SequencerEvent::Processed);
    assert_eq!(a, SequencerAction::StoreProcessed);
    assert_eq!(s.tx_counter, 1);
    let (s, a) = s.step(&config, SequencerEvent::Processed);
    assert_eq!(a, SequencerAction::StoreAndSettle);
    assert_eq!(s.tx_counter, 0);
    let (s, a) = s.step(&config, SequencerEvent::VerifyFailed);
    assert_eq!(a, SequencerAction::UnlockAccounts);
    let (_, a) = s.step(&config, SequencerEvent::LockFailed);
    assert_eq!(a, SequencerAction::Skip);
}

#[test]
fn sequencer_run_settles_once_per_batch() {
    let config = SequencerConfig { max_batch_size: 3, rpc_url: String::new(), enable_settlement: true };
    let events = [
        SequencerEvent::Processed,
        SequencerEvent::LockFailed,
        SequencerEvent::Processed,
        SequencerEvent::ProcessFailed,
        SequencerEvent::Processed,
        SequencerEvent::Processed,
        SequencerEvent::VerifyFailed,
        SequencerEvent::Processed,
        SequencerEvent::Processed,
        SequencerEvent::Processed,
    ];
    let mut s = SequencerState::new();
    let mut settlements = 0;
    for e in events.iter() {
        let (next, a) = s.step(&config, *e);
        if a == SequencerAction::StoreAndSettle {
            settlements += 1;
        }
        s = next;
    }
    assert_eq!(settlements, 7 / 3);
    assert_eq!(s.tx_counter, 7 % 3);
}

#[test]
fn sequencer_without_settlement_never_settles() {
    let config = SequencerConfig { max_batch_size: 1, rpc_url: String::new(), enable_settlement: false };
    let mut s = SequencerState::new();
    for _ in 0..5 {
        let (next, a) = s.step(&config, SequencerEvent::Processed);
        assert_eq!(a, SequencerAction::StoreProcessed);
        s = next;
    }
    assert_eq!(s.tx_counter, 5);
}

#[test]
fn fraud_proof_unknown_id_message() {
    let mut m = FraudProofManager::default();
    let id = m.submit_fraud_proof(1, 0, FraudClaim::InvalidNonce { expected: 1, actual: 5 }, evidence(vec![]));
    assert_eq!(m.verify_proof(id), Ok(true));
    assert_eq!(m.verify_proof(id + 1), Err("Proof not found".to_string()));
}
