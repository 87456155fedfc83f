use vcbc::blockchain::{Block, Blockchain, NetworkConfig};
use vcbc::mpt::MerklePatriciaTrie;

#[test]
fn test_block_creation() {
    let mut data = MerklePatriciaTrie::new();
    data.insert("test", b"value".to_vec()).unwrap();
    let block = Block::new(1, data, "previous_hash".to_string());

    assert_eq!(block.index, 1);
    assert_eq!(block.previous_hash, "previous_hash");
    assert_eq!(block.nonce, 0);
    assert!(!block.hash.is_empty());
}

#[test]
fn block_test_genesis_block() {
    let genesis = Block::genesis();

    assert_eq!(genesis.index, 0);
    assert_eq!(genesis.previous_hash, "0");
    assert_eq!(genesis.nonce, 0);
    assert!(!genesis.hash.is_empty());
}

#[test]
fn test_block_hash_calculation() {
    let mut data = MerklePatriciaTrie::new();
    data.insert("key", b"value".to_vec()).unwrap();
    let block = Block::new(1, data, "prev".to_string());
    let hash1 = block.calculate_hash();
    let hash2 = block.calculate_hash();

    assert_eq!(hash1, hash2);
    assert_eq!(block.hash, hash1);
}

#[test]
fn test_block_mining() {
    let mut data = MerklePatriciaTrie::new();
    data.insert("test", b"mining".to_vec()).unwrap();
    let mut block = Block::new(1, data, "prev".to_string());

    block.mine_block(2); // Difficulty 2

    assert!(block.hash.starts_with("00"));
    assert!(block.nonce > 0);
}

#[test]
fn test_block_format_info() {
    let mut data = MerklePatriciaTrie::new();
    data.insert("test", b"value".to_vec()).unwrap();
    let block = Block::new(1, data, "prev".to_string());
    let info = block.format_info();

    assert!(info.contains("Block #1"));
    assert!(info.contains(&block.hash));
    assert!(info.contains("test -> value"));
}

#[test]
fn test_block_is_valid() {
    let mut data = MerklePatriciaTrie::new();
    data.insert("test", b"value".to_vec()).unwrap();
    let mut block = Block::new(1, data, "prev".to_string());

    // Mine block to make it valid
    block.mine_block(2);

    assert!(block.is_valid(2));
    assert!(!block.is_valid(3)); // Higher difficulty should fail
}

#[test]
fn test_genesis_block_with_config() {
    let config = NetworkConfig {
        network_id: "test-net".to_string(),
        chain_id: 42,
        genesis_hash: "".to_string(),
        protocol_version: "2.0.0".to_string(),
    };

    let genesis = Block::genesis_with_config(config);

    assert_eq!(genesis.index, 0);
    assert_eq!(genesis.previous_hash, "0");

    // Check that config data was stored
    assert_eq!(genesis.data.get("network_id").unwrap(), b"test-net");
    assert_eq!(genesis.data.get("chain_id").unwrap(), b"42");
    assert_eq!(genesis.data.get("protocol_version").unwrap(), b"2.0.0");
}

#[test]
fn test_add_block_to_chain() {
    let mut blockchain = Blockchain::new_default(1);
    let mut mpt = MerklePatriciaTrie::new();
    mpt.insert("test", b"data".to_vec()).unwrap();

    blockchain.add_block(mpt);

    assert_eq!(blockchain.chain.len(), 2);
    assert_eq!(blockchain.get_latest_block().index, 1);
    assert_eq!(
        blockchain.get_latest_block().previous_hash,
        blockchain.chain[0].hash
    );
    assert!(blockchain.is_chain_valid());
}

#[test]
fn test_get_block_by_index() {
    let mut blockchain = Blockchain::new_default(1);
    let mut mpt = MerklePatriciaTrie::new();
    mpt.insert("test", b"data".to_vec()).unwrap();

    blockchain.add_block(mpt);

    let block = blockchain.get_block(0).unwrap();
    assert_eq!(block.index, 0);

    let block = blockchain.get_block(1).unwrap();
    assert_eq!(block.index, 1);

    assert!(blockchain.get_block(999).is_none());
}

#[test]
fn test_get_latest_block() {
    let mut blockchain = Blockchain::new_default(1);
    let mut mpt = MerklePatriciaTrie::new();
    mpt.insert("test", b"data".to_vec()).unwrap();

    blockchain.add_block(mpt);

    let latest = blockchain.get_latest_block();
    assert_eq!(latest.index, 1);
}

#[test]
fn test_chain_validation_valid_chain() {
    let mut blockchain = Blockchain::new_default(1);
    let mut mpt = MerklePatriciaTrie::new();
    mpt.insert("test", b"data".to_vec()).unwrap();

    blockchain.add_block(mpt);
    assert!(blockchain.is_chain_valid());
}

#[test]
fn test_chain_validation_invalid_hash() {
    let mut blockchain = Blockchain::new_default(1);
    let mut mpt = MerklePatriciaTrie::new();
    mpt.insert("test", b"data".to_vec()).unwrap();

    blockchain.add_block(mpt);

    // Tamper with a block hash
    blockchain.chain[1].hash = "tampered_hash".to_string();

    assert!(!blockchain.is_chain_valid());
}

#[test]
fn test_chain_validation_invalid_previous_hash() {
    let mut blockchain = Blockchain::new_default(1);
    let mut mpt = MerklePatriciaTrie::new();
    mpt.insert("test", b"data".to_vec()).unwrap();

    blockchain.add_block(mpt);

    // Tamper with previous hash link
    blockchain.chain[1].previous_hash = "tampered_previous".to_string();

    assert!(!blockchain.is_chain_valid());
}

#[test]
fn test_chain_validation_invalid_pow() {
    let mut blockchain = Blockchain::new_default(2);
    let mut mpt = MerklePatriciaTrie::new();
    mpt.insert("test", b"data".to_vec()).unwrap();

    blockchain.add_block(mpt);

    // Tamper with nonce to break PoW
    blockchain.chain[1].nonce = 0;

    assert!(!blockchain.is_chain_valid());
}

#[test]
fn test_empty_blockchain_is_valid() {
    let blockchain = Blockchain::new_default(1);
    assert!(blockchain.is_chain_valid());
}

#[test]
fn test_mpt_data_preservation() {
    let mut blockchain = Blockchain::new_default(1);
    let mut mpt = MerklePatriciaTrie::new();
    mpt.insert("user", b"alice".to_vec()).unwrap();
    mpt.insert("balance", b"100".to_vec()).unwrap();

    blockchain.add_block(mpt);

    let stored_block = blockchain.get_block(1).unwrap();
    assert_eq!(stored_block.data.get("user").unwrap(), b"alice");
    assert_eq!(stored_block.data.get("balance").unwrap(), b"100");
    assert!(stored_block.data.get("nonexistent").is_none());
}

#[test]
fn test_genesis_block_properties() {
    let blockchain = Blockchain::new_default(1);
    let genesis = &blockchain.chain[0];

    assert_eq!(genesis.index, 0);
    assert_eq!(genesis.previous_hash, "0");
    assert_eq!(genesis.nonce, 0);
    // Genesis block now contains metadata
    assert!(!genesis.data.is_empty());
    assert_eq!(genesis.data.get("message"), Some(b"Genesis Block".to_vec()));
    assert_eq!(genesis.data.get("version"), Some(b"1.0".to_vec()));
    // Check network config data
    assert_eq!(genesis.data.get("network_id"), Some(b"vc-mainnet".to_vec()));
    assert_eq!(genesis.data.get("chain_id"), Some(b"1".to_vec()));
    assert_eq!(
        genesis.data.get("protocol_version"),
        Some(b"1.0.0".to_vec())
    );
}

#[test]
fn test_blockchain_creation() {
    let blockchain = Blockchain::new_default(2);
    assert_eq!(blockchain.chain.len(), 1);
    assert_eq!(blockchain.difficulty, 2);
    assert_eq!(blockchain.network_config.network_id, "vc-mainnet");
    assert_eq!(blockchain.network_config.chain_id, 1);
}

#[test]
fn test_block_creation_and_validation() {
    let mut blockchain = Blockchain::new_default(2);

    // Add a block
    blockchain.add_block_with_key_value("test", b"value".to_vec());

    // Check blockchain state
    assert_eq!(blockchain.chain.len(), 2);
    assert!(blockchain.is_chain_valid());

    // Check data retrieval
    let value = blockchain.get_data_from_block(1, "test");
    assert_eq!(value, Some(b"value".to_vec()));
}

#[test]
fn test_data_integrity_verification() {
    let mut blockchain = Blockchain::new_default(2);
    blockchain.add_block_with_key_value("key1", b"value1".to_vec());

    // Verify correct data
    assert!(blockchain.verify_data_integrity(1, "key1", b"value1"));

    // Verify incorrect data fails
    assert!(!blockchain.verify_data_integrity(1, "key1", b"wrong"));

    // Verify non-existent key fails
    assert!(!blockchain.verify_data_integrity(1, "nonexistent", b"value1"));
}

#[test]
fn chain_test_genesis_block() {
    let blockchain = Blockchain::new_default(2);
    let genesis = blockchain.get_block(0).unwrap();

    assert_eq!(genesis.index, 0);
    assert_eq!(genesis.previous_hash, "0");
    assert!(genesis.is_valid(2));

    // Check genesis data
    let message = genesis.data.get("message");
    assert_eq!(message, Some(b"Genesis Block".to_vec()));
}

#[test]
fn test_blockchain_stats() {
    let mut blockchain = Blockchain::new_default(3);
    blockchain.add_block_with_key_value("test", b"data".to_vec());

    let stats = blockchain.get_stats();
    assert_eq!(stats.total_blocks, 2);
    assert_eq!(stats.latest_index, 1);
    assert_eq!(stats.difficulty, 3);
    assert!(stats.is_valid);
}

#[test]
fn test_network_config_creation() {
    let config = NetworkConfig {
        network_id: "test-net".to_string(),
        chain_id: 42,
        genesis_hash: "test-hash".to_string(),
        protocol_version: "2.0.0".to_string(),
    };

    let blockchain = Blockchain::new(2, config.clone());
    assert_eq!(blockchain.network_config.network_id, "test-net");
    assert_eq!(blockchain.network_config.chain_id, 42);
    assert_eq!(blockchain.network_config.protocol_version, "2.0.0");
}

#[test]
fn test_network_compatibility_same_network() {
    let config1 = NetworkConfig {
        network_id: "test-net".to_string(),
        chain_id: 1,
        genesis_hash: "genesis-hash".to_string(),
        protocol_version: "1.0.0".to_string(),
    };

    let config2 = config1.clone();

    let blockchain1 = Blockchain::new(2, config1);
    let blockchain2 = Blockchain::new(2, config2);

    assert!(blockchain1
        .validate_network_compatibility(&blockchain2.network_config)
        .is_ok());
    assert!(blockchain1.is_same_network(&blockchain2));
}

#[test]
fn test_network_compatibility_different_network() {
    let config1 = NetworkConfig {
        network_id: "test-net-1".to_string(),
        chain_id: 1,
        genesis_hash: "genesis-hash-1".to_string(),
        protocol_version: "1.0.0".to_string(),
    };

    let config2 = NetworkConfig {
        network_id: "test-net-2".to_string(),
        chain_id: 1,
        genesis_hash: "genesis-hash-1".to_string(),
        protocol_version: "1.0.0".to_string(),
    };

    let blockchain1 = Blockchain::new(2, config1);
    let blockchain2 = Blockchain::new(2, config2);

    assert!(blockchain1
        .validate_network_compatibility(&blockchain2.network_config)
        .is_err());
    assert!(!blockchain1.is_same_network(&blockchain2));
}

#[test]
fn test_network_compatibility_different_genesis() {
    let config1 = NetworkConfig {
        network_id: "test-net-1".to_string(),
        chain_id: 1,
        genesis_hash: "".to_string(), // Will be set by genesis creation
        protocol_version: "1.0.0".to_string(),
    };

    let config2 = NetworkConfig {
        network_id: "test-net-2".to_string(),
        chain_id: 1,
        genesis_hash: "".to_string(), // Will be set by genesis creation
        protocol_version: "1.0.0".to_string(),
    };

    let blockchain1 = Blockchain::new(2, config1);
    let blockchain2 = Blockchain::new(2, config2);

    // Different network IDs should fail validation
    assert!(blockchain1
        .validate_network_compatibility(&blockchain2.network_config)
        .is_err());
    assert!(!blockchain1.is_same_network(&blockchain2));

    // Same network with different genesis hashes would also fail, but here we test different network IDs
    assert_ne!(
        blockchain1.network_config.genesis_hash,
        blockchain2.network_config.genesis_hash
    );
}

#[test]
fn test_add_block_with_key_value() {
    let mut blockchain = Blockchain::new_default(1);
    blockchain.add_block_with_key_value("test-key", b"test-value".to_vec());

    assert_eq!(blockchain.chain.len(), 2);
    let latest_block = blockchain.get_latest_block();
    assert_eq!(latest_block.index, 1);
    assert_eq!(
        blockchain.get_data_from_block(1, "test-key"),
        Some(b"test-value".to_vec())
    );
}

#[test]
fn test_get_data_from_block() {
    let mut blockchain = Blockchain::new_default(1);
    blockchain.add_block_with_key_value("key1", b"value1".to_vec());
    blockchain.add_block_with_key_value("key2", b"value2".to_vec());

    assert_eq!(
        blockchain.get_data_from_block(1, "key1"),
        Some(b"value1".to_vec())
    );
    assert_eq!(
        blockchain.get_data_from_block(2, "key2"),
        Some(b"value2".to_vec())
    );
    assert_eq!(blockchain.get_data_from_block(1, "nonexistent"), None);
    assert_eq!(blockchain.get_data_from_block(99, "key1"), None);
}

#[test]
fn test_get_all_block_hashes() {
    let mut blockchain = Blockchain::new_default(1);
    blockchain.add_block_with_key_value("key", b"value".to_vec());
    blockchain.add_block_with_key_value("key2", b"value2".to_vec());

    let hashes = blockchain.get_all_block_hashes();
    assert_eq!(hashes.len(), 3); // genesis + 2 blocks
    assert!(!hashes[0].is_empty());
    assert!(!hashes[1].is_empty());
    assert!(!hashes[2].is_empty());
}

#[test]
fn test_find_blocks_with_key() {
    let mut blockchain = Blockchain::new_default(1);
    blockchain.add_block_with_key_value("shared-key", b"value1".to_vec());
    blockchain.add_block_with_key_value("unique-key", b"value2".to_vec());
    blockchain.add_block_with_key_value("shared-key", b"value3".to_vec());

    let shared_blocks = blockchain.find_blocks_with_key("shared-key");
    assert_eq!(shared_blocks, vec![1, 3]);

    let unique_blocks = blockchain.find_blocks_with_key("unique-key");
    assert_eq!(unique_blocks, vec![2]);

    let nonexistent_blocks = blockchain.find_blocks_with_key("nonexistent");
    assert_eq!(nonexistent_blocks, Vec::<usize>::new());
}

#[test]
fn test_validate_network_compatibility() {
    let config1 = NetworkConfig {
        network_id: "test-net".to_string(),
        chain_id: 1,
        genesis_hash: "hash1".to_string(),
        protocol_version: "1.0.0".to_string(),
    };
    let _config2 = NetworkConfig {
        network_id: "test-net".to_string(),
        chain_id: 1,
        genesis_hash: "hash1".to_string(),
        protocol_version: "1.0.0".to_string(),
    };
    let config3 = NetworkConfig {
        network_id: "different-net".to_string(),
        chain_id: 1,
        genesis_hash: "hash1".to_string(),
        protocol_version: "1.0.0".to_string(),
    };

    let blockchain = Blockchain::new(1, config1);
    assert!(blockchain
        .validate_network_compatibility(&blockchain.network_config)
        .is_ok());
    assert!(blockchain.validate_network_compatibility(&config3).is_err());
}

#[test]
fn test_is_same_network() {
    let config1 = NetworkConfig {
        network_id: "test-net".to_string(),
        chain_id: 1,
        genesis_hash: "hash1".to_string(),
        protocol_version: "1.0.0".to_string(),
    };
    let config2 = NetworkConfig {
        network_id: "test-net".to_string(),
        chain_id: 1,
        genesis_hash: "hash1".to_string(),
        protocol_version: "1.0.0".to_string(),
    };
    let config3 = NetworkConfig {
        network_id: "different-net".to_string(),
        chain_id: 1,
        genesis_hash: "hash1".to_string(),
        protocol_version: "1.0.0".to_string(),
    };

    let blockchain1 = Blockchain::new(1, config1);
    let blockchain2 = Blockchain::new(1, config2);
    let blockchain3 = Blockchain::new(1, config3);

    assert!(blockchain1.is_same_network(&blockchain2));
    assert!(!blockchain1.is_same_network(&blockchain3));
}

#[test]
fn test_genesis_with_network_config() {
    let config = NetworkConfig {
        network_id: "custom-net".to_string(),
        chain_id: 99,
        genesis_hash: "".to_string(), // Will be set by genesis
        protocol_version: "1.5.0".to_string(),
    };

    let blockchain = Blockchain::genesis(config);
    let genesis = &blockchain.chain[0];

    // Check that genesis contains network data
    assert_eq!(genesis.data.get("network_id"), Some(b"custom-net".to_vec()));
    assert_eq!(genesis.data.get("chain_id"), Some(b"99".to_vec()));
    assert_eq!(
        genesis.data.get("protocol_version"),
        Some(b"1.5.0".to_vec())
    );

    // Check that network config has correct genesis hash
    assert!(!blockchain.network_config.genesis_hash.is_empty());
    assert_eq!(genesis.hash, blockchain.network_config.genesis_hash);
}

#[test]
fn mining_stops_at_exactly_the_difficulty() {
    for i in 0..8u64 {
        let mut data = MerklePatriciaTrie::new();
        data.insert("k", vec![i as u8]).unwrap();
        let mut block = Block::new(i + 1, data, format!("prev-{}", i));
        block.mine_block(1);
        assert!(block.hash.starts_with('0'));
        assert_ne!(block.hash.as_bytes()[1], b'0');
        assert!(block.is_valid(1));
        assert!(!block.is_valid(2));
    }
}
