use vcbc::blockchain::Blockchain;
use vcbc::cli::{Commands, VcbcApp};
use vcbc::error::BlockchainError;
use vcbc::mpt::MerklePatriciaTrie;
use vcbc::storage::{FileStorage, SqliteStorage};

#[test]
fn test_file_storage_creation() {
    let storage = FileStorage::new("test_blockchain.json");
    assert_eq!(storage.file_path(), "test_blockchain.json");
}

#[test]
fn test_file_storage_default() {
    let storage = FileStorage::default();
    assert_eq!(storage.file_path(), "blockchain.json");
}

#[test]
fn test_sqlite_storage_creation() {
    let storage = SqliteStorage::new("test_blockchain.db");
    assert_eq!(storage.db_path(), "test_blockchain.db");
}

#[test]
fn test_sqlite_storage_default() {
    let storage = SqliteStorage::default();
    assert_eq!(storage.db_path(), "blockchain.db");
}

#[test]
fn test_cli_app_creation() {
    let _app = VcbcApp::new("test_storage");
}

#[test]
fn test_cli_app_creation_with_different_storage() {
    let app = VcbcApp::new("different_storage_path");
    assert_eq!(app.storage().file_path(), "different_storage_path");
}

#[test]
fn test_command_processing_delegation() {
    let app = VcbcApp::new("test");

    // Test that all commands properly delegate to main.rs
    let commands = vec![
        Commands::InitChain {
            network_id: "test".to_string(),
            chain_id: 1,
            http_port: 8080,
            p2p_port: 9090,
        },
        Commands::InitNode {
            bootstrap_url: "http://localhost:8080".to_string(),
            http_port: 8081,
            p2p_port: 9091,
        },
        Commands::StartBootnode {
            config: "config.json".to_string(),
        },
        Commands::StartNode {
            config: "config.json".to_string(),
        },
        Commands::InitAuthority {
            name: "test-authority".to_string(),
            output: "authority.json".to_string(),
        },
        Commands::RegisterBootnode {
            node_id: "node1".to_string(),
            authority: "authority.json".to_string(),
            config: "config.json".to_string(),
            output: "cert.json".to_string(),
        },
    ];

    for command in commands {
        let result = app.process_command(&command);
        assert!(result.is_err());
        let err = result.unwrap_err();
        match err {
            BlockchainError::InvalidInput(msg) => {
                assert!(msg.contains("should be handled in main.rs"));
            }
            _ => panic!("Expected InvalidInput error"),
        }
    }
}

#[test]
fn saved_and_loaded_chains_are_checked() {
    let storage = FileStorage::new("unused.json");
    let mut blockchain = Blockchain::new_default(1);
    assert!(storage.validate_save_conditions(&blockchain).is_ok());
    assert!(storage.validate_loaded_blockchain(&blockchain).is_ok());

    blockchain.add_block(MerklePatriciaTrie::new());
    assert_eq!(
        storage.validate_loaded_blockchain(&blockchain),
        Err(BlockchainError::BlockValidation(
            "Loaded block has empty MPT data".to_string()
        ))
    );

    blockchain.chain.clear();
    assert_eq!(
        storage.validate_save_conditions(&blockchain),
        Err(BlockchainError::InvalidInput(
            "Cannot save empty blockchain".to_string()
        ))
    );
    assert_eq!(
        storage.validate_loaded_blockchain(&blockchain),
        Err(BlockchainError::InvalidInput(
            "Loaded blockchain is empty".to_string()
        ))
    );

    let sqlite = SqliteStorage::default();
    let config = blockchain.network_config.clone();
    assert_eq!(
        sqlite
            .assemble_loaded_chain(Vec::new(), 1, config.clone())
            .unwrap_err(),
        BlockchainError::InvalidInput("No blocks found in database".to_string())
    );
    let loaded = sqlite
        .assemble_loaded_chain(Blockchain::new_default(4).chain, 4, config)
        .unwrap();
    assert_eq!(loaded.chain.len(), 1);
    assert_eq!(loaded.difficulty, 4);
}

#[test]
fn every_command_is_refused_with_its_name() {
    let app = VcbcApp::new("s");
    let err = app
        .process_command(&Commands::StartNode {
            config: "c".to_string(),
        })
        .unwrap_err();
    assert_eq!(
        err,
        BlockchainError::InvalidInput("StartNode command should be handled in main.rs".to_string())
    );
}
