use std::io::ErrorKind;
use vcbc::error::{BlockchainError, Result};

#[test]
fn test_error_display() {
    let error = BlockchainError::BlockValidation("Invalid hash".to_string());
    assert!(error.message().contains("Block validation error"));
}

#[test]
fn test_error_conversion() {
    let io_error = std::io::Error::new(std::io::ErrorKind::NotFound, "file not found");
    let blockchain_error: BlockchainError = io_error.into();
    match blockchain_error {
        BlockchainError::StorageError(_) => {}
        _ => panic!("Expected StorageError"),
    }
}

#[test]
fn test_all_error_variants_display() {
    // Test all error variants have proper display formatting
    assert!(BlockchainError::BlockValidation("test".to_string())
        .message()
        .contains("Block validation error"));
    assert!(BlockchainError::MptOperation("test".to_string())
        .message()
        .contains("MPT operation error"));
    assert!(BlockchainError::ProofError("test".to_string())
        .message()
        .contains("Proof error"));
    assert!(BlockchainError::NetworkError("test".to_string())
        .message()
        .contains("Network error"));
    assert!(BlockchainError::StorageError("test".to_string())
        .message()
        .contains("Storage error"));
    assert!(BlockchainError::NodeError("test".to_string())
        .message()
        .contains("Node error"));
    assert!(BlockchainError::InvalidInput("test".to_string())
        .message()
        .contains("Invalid input"));
    assert!(BlockchainError::NotFound("test".to_string())
        .message()
        .contains("Not found"));
    assert!(BlockchainError::InternalError("test".to_string())
        .message()
        .contains("Internal error"));
}

#[test]
fn test_network_mismatch_display() {
    let error = BlockchainError::NetworkMismatch {
        expected: "vc-mainnet".to_string(),
        received: "vc-testnet".to_string(),
    };
    let display = error.message();
    assert!(display.contains("Network mismatch"));
    assert!(display.contains("vc-mainnet"));
    assert!(display.contains("vc-testnet"));
}

#[test]
fn test_genesis_mismatch_display() {
    let error = BlockchainError::GenesisMismatch {
        expected: "hash123".to_string(),
        received: "hash456".to_string(),
    };
    let display = error.message();
    assert!(display.contains("Genesis mismatch"));
    assert!(display.contains("hash123"));
    assert!(display.contains("hash456"));
}

#[test]
fn test_protocol_mismatch_display() {
    let error = BlockchainError::ProtocolMismatch {
        expected: "v1.0".to_string(),
        received: "v2.0".to_string(),
    };
    let display = error.message();
    assert!(display.contains("Protocol mismatch"));
    assert!(display.contains("v1.0"));
    assert!(display.contains("v2.0"));
}

#[test]
fn test_error_debug_formatting() {
    let error = BlockchainError::InvalidInput("test message".to_string());
    let debug_str = format!("{:?}", error);
    assert!(debug_str.contains("InvalidInput"));
    assert!(debug_str.contains("test message"));
}

#[test]
fn test_error_clone() {
    let error = BlockchainError::BlockValidation("test".to_string());
    let cloned = error.clone();
    assert!(matches!(cloned, BlockchainError::BlockValidation(_)));
}

#[test]
fn test_io_error_conversion() {
    let io_error = std::io::Error::new(ErrorKind::PermissionDenied, "permission denied");
    let blockchain_error: BlockchainError = io_error.into();
    match blockchain_error {
        BlockchainError::StorageError(msg) => {
            assert!(msg.contains("IO error"));
            assert!(msg.contains("permission denied"));
        }
        _ => panic!("Expected StorageError"),
    }
}

#[test]
fn test_json_error_conversion() {
    let json_error = serde_json::from_str::<serde_json::Value>("invalid json").unwrap_err();
    let blockchain_error: BlockchainError = json_error.into();
    match blockchain_error {
        BlockchainError::StorageError(msg) => {
            assert!(msg.contains("Serialization error"));
        }
        _ => panic!("Expected StorageError"),
    }
}

#[test]
fn test_error_trait_implementation() {
    let error = BlockchainError::InvalidInput("test".to_string());
    // The error's text is what its message gives
    let _display = error.message();
}

#[test]
fn test_result_type_alias() {
    let result: Result<i32> = Ok(42);
    assert_eq!(result, Ok(42));

    let error_result: Result<i32> = Err(BlockchainError::InvalidInput("test".to_string()));
    assert!(error_result.is_err());
}

#[test]
fn error_messages_are_exact() {
    assert_eq!(
        BlockchainError::NotFound("block 7".to_string()).message(),
        "Not found: block 7"
    );
    assert_eq!(
        BlockchainError::GenesisMismatch {
            expected: "a".to_string(),
            received: "b".to_string()
        }
        .message(),
        "Genesis mismatch: expected 'a', received 'b'"
    );
}
