use vcbc::blockchain::Blockchain;
use vcbc::error::BlockchainError;
use vcbc::mpt::MerklePatriciaTrie;
use vcbc::proofs::{MerkleProof, ProofVerifier};

fn create_test_blockchain() -> Blockchain {
    let mut blockchain = Blockchain::new_default(2);
    let mut mpt = MerklePatriciaTrie::new();
    mpt.insert("test_key", b"test_value".to_vec()).unwrap();
    blockchain.add_block(mpt);
    blockchain
}

#[test]
fn test_proof_creation() {
    let mut blockchain = Blockchain::new_default(1);
    let mut mpt = MerklePatriciaTrie::new();
    mpt.insert("user", b"alice".to_vec()).unwrap();
    blockchain.add_block(mpt);
    let block = blockchain.get_block(1).unwrap();

    let proof = MerkleProof::new(
        "user".to_string(),
        b"alice".to_vec(),
        1,
        block.data.root_hash(),
        block.hash.clone(),
    );

    assert_eq!(proof.key, "user");
    assert_eq!(proof.value, b"alice");
    assert_eq!(proof.block_index, 1);
    assert_eq!(proof.mpt_root_hash, block.data.root_hash());
    assert_eq!(proof.block_hash, block.hash);
    assert!(!proof.timestamp.is_empty());
}

#[test]
fn test_valid_proof_verification() {
    let mut blockchain = Blockchain::new_default(1);
    let mut mpt = MerklePatriciaTrie::new();
    mpt.insert("user", b"alice".to_vec()).unwrap();
    blockchain.add_block(mpt);
    let block = blockchain.get_block(1).unwrap();

    // Create valid proof
    let proof = MerkleProof::new(
        "user".to_string(),
        b"alice".to_vec(),
        1,
        block.data.root_hash(),
        block.hash.clone(),
    );

    let is_valid = proof.verify(&blockchain);
    assert!(is_valid);
}

#[test]
fn test_invalid_proof_wrong_value() {
    let mut blockchain = Blockchain::new_default(1);
    let mut mpt = MerklePatriciaTrie::new();
    mpt.insert("user", b"alice".to_vec()).unwrap();
    blockchain.add_block(mpt);
    let block = blockchain.get_block(1).unwrap();

    // Create proof with wrong value
    let proof = MerkleProof::new(
        "user".to_string(),
        b"bob".to_vec(), // Wrong value
        1,
        block.data.root_hash(),
        block.hash.clone(),
    );

    let is_valid = proof.verify(&blockchain);
    assert!(!is_valid);
}

#[test]
fn test_invalid_proof_wrong_key() {
    let mut blockchain = Blockchain::new_default(1);
    let mut mpt = MerklePatriciaTrie::new();
    mpt.insert("user", b"alice".to_vec()).unwrap();
    blockchain.add_block(mpt);
    let block = blockchain.get_block(1).unwrap();

    // Create proof with non-existent key
    let proof = MerkleProof::new(
        "nonexistent".to_string(),
        b"some_value".to_vec(),
        1,
        block.data.root_hash(),
        block.hash.clone(),
    );

    let is_valid = proof.verify(&blockchain);
    assert!(!is_valid);
}

#[test]
fn test_invalid_proof_wrong_block_index() {
    let mut blockchain = Blockchain::new_default(1);
    let mut mpt = MerklePatriciaTrie::new();
    mpt.insert("user", b"alice".to_vec()).unwrap();
    blockchain.add_block(mpt);
    let block = blockchain.get_block(1).unwrap();

    // Create proof with wrong block index
    let proof = MerkleProof::new(
        "user".to_string(),
        b"alice".to_vec(),
        999, // Non-existent block
        block.data.root_hash(),
        block.hash.clone(),
    );

    let is_valid = proof.verify(&blockchain);
    assert!(!is_valid);
}

#[test]
fn test_invalid_proof_wrong_block_hash() {
    let mut blockchain = Blockchain::new_default(1);
    let mut mpt = MerklePatriciaTrie::new();
    mpt.insert("user", b"alice".to_vec()).unwrap();
    blockchain.add_block(mpt);
    let block = blockchain.get_block(1).unwrap();

    // Create proof with wrong block hash
    let proof = MerkleProof::new(
        "user".to_string(),
        b"alice".to_vec(),
        1,
        block.data.root_hash(),
        "wrong_hash".to_string(),
    );

    let is_valid = proof.verify(&blockchain);
    assert!(!is_valid);
}

#[test]
fn test_invalid_proof_wrong_mpt_root() {
    let mut blockchain = Blockchain::new_default(1);
    let mut mpt = MerklePatriciaTrie::new();
    mpt.insert("user", b"alice".to_vec()).unwrap();
    blockchain.add_block(mpt);
    let block = blockchain.get_block(1).unwrap();

    // Create proof with wrong MPT root hash
    let proof = MerkleProof::new(
        "user".to_string(),
        b"alice".to_vec(),
        1,
        vec![0u8; 32], // Wrong root hash
        block.hash.clone(),
    );

    let is_valid = proof.verify(&blockchain);
    assert!(!is_valid);
}

#[test]
fn test_verify_against_root() {
    let mut mpt = MerklePatriciaTrie::new();
    mpt.insert("key", b"value".to_vec()).unwrap();
    let root_hash = mpt.root_hash();

    let proof = MerkleProof::new(
        "key".to_string(),
        b"value".to_vec(),
        0,
        root_hash.clone(),
        "block_hash".to_string(),
    );

    // Should verify against correct root
    assert!(proof.verify_against_root(&root_hash));

    // Should not verify against wrong root
    let wrong_root = vec![1u8; 32];
    assert!(!proof.verify_against_root(&wrong_root));
}

#[test]
fn test_proof_with_empty_value() {
    let mut blockchain = Blockchain::new_default(1);
    let mut mpt = MerklePatriciaTrie::new();
    mpt.insert("user", b"alice".to_vec()).unwrap();
    blockchain.add_block(mpt);
    let block = blockchain.get_block(1).unwrap();

    let proof = MerkleProof::new(
        "user".to_string(),
        Vec::new(), // Empty value
        1,
        block.data.root_hash(),
        block.hash.clone(),
    );

    // This should fail since "user" has value "alice", not empty
    let is_valid = proof.verify(&blockchain);
    assert!(!is_valid);
}

#[test]
fn test_proof_with_large_value() {
    let mut blockchain = Blockchain::new_default(1);
    let large_value = vec![0u8; 10000]; // 10KB value
    let mut mpt = MerklePatriciaTrie::new();
    mpt.insert("large_key", large_value.clone()).unwrap();
    blockchain.add_block(mpt);

    let block = blockchain.get_block(1).unwrap();
    let proof = MerkleProof::new(
        "large_key".to_string(),
        large_value,
        1,
        block.data.root_hash(),
        block.hash.clone(),
    );

    let is_valid = proof.verify(&blockchain);
    assert!(is_valid);
}

#[test]
fn test_proof_with_unicode_key_value() {
    let mut blockchain = Blockchain::new_default(1);
    let unicode_key = "🚀测试";
    let unicode_value = "区块链数据".as_bytes().to_vec();
    let mut mpt = MerklePatriciaTrie::new();
    mpt.insert(unicode_key, unicode_value.clone()).unwrap();
    blockchain.add_block(mpt);

    let block = blockchain.get_block(1).unwrap();
    let proof = MerkleProof::new(
        unicode_key.to_string(),
        unicode_value,
        1,
        block.data.root_hash(),
        block.hash.clone(),
    );

    let is_valid = proof.verify(&blockchain);
    assert!(is_valid);
}

#[test]
fn test_proof_timestamp() {
    let mut blockchain = Blockchain::new_default(1);
    let mut mpt = MerklePatriciaTrie::new();
    mpt.insert("user", b"alice".to_vec()).unwrap();
    blockchain.add_block(mpt);
    let block = blockchain.get_block(1).unwrap();

    let before_creation = chrono::Utc::now();
    let proof = MerkleProof::new(
        "user".to_string(),
        b"alice".to_vec(),
        1,
        block.data.root_hash(),
        block.hash.clone(),
    );
    let after_creation = chrono::Utc::now();

    // Timestamp should be reasonable (within a few seconds)
    let proof_time = chrono::DateTime::parse_from_rfc3339(&proof.timestamp).unwrap();
    assert!(proof_time > before_creation - chrono::Duration::seconds(5));
    assert!(proof_time < after_creation + chrono::Duration::seconds(5));
}

#[test]
fn test_proof_creation_and_verification() {
    let blockchain = create_test_blockchain();
    let block = blockchain.get_block(1).unwrap();

    let proof = block
        .data
        .generate_proof("test_key", 1, block.hash.clone())
        .unwrap();

    assert!(proof.verify(&blockchain));
    assert!(ProofVerifier::verify_proof(&proof, &blockchain).unwrap());
}

#[test]
fn test_invalid_proof_fails() {
    let blockchain = create_test_blockchain();
    let block = blockchain.get_block(1).unwrap();

    // Create a proof with wrong value
    let proof = MerkleProof::new(
        "test_key".to_string(),
        b"wrong_value".to_vec(),
        1,
        block.data.root_hash(),
        block.hash.clone(),
    );

    assert!(!proof.verify(&blockchain));
    assert!(ProofVerifier::verify_proof(&proof, &blockchain).is_err());
}

#[test]
fn test_proof_formatting() {
    let blockchain = create_test_blockchain();
    let block = blockchain.get_block(1).unwrap();

    let proof = block
        .data
        .generate_proof("test_key", 1, block.hash.clone())
        .unwrap();
    let formatted = proof.format();

    assert!(formatted.contains("test_key"));
    assert!(formatted.contains("test_value"));
    assert!(formatted.contains(&block.hash));
}

#[test]
fn verify_proof_reports_the_first_failing_check() {
    let blockchain = create_test_blockchain();
    let block = blockchain.get_block(1).unwrap();

    let missing_block = MerkleProof::new(
        "test_key".to_string(),
        b"test_value".to_vec(),
        7,
        block.data.root_hash(),
        block.hash.clone(),
    );
    assert_eq!(
        ProofVerifier::verify_proof(&missing_block, &blockchain),
        Err(BlockchainError::ProofError(
            "Block 7 does not exist in blockchain".to_string()
        ))
    );

    let wrong_root = MerkleProof::new(
        "test_key".to_string(),
        b"test_value".to_vec(),
        1,
        vec![9u8; 32],
        block.hash.clone(),
    );
    assert_eq!(
        ProofVerifier::verify_proof(&wrong_root, &blockchain),
        Err(BlockchainError::ProofError(
            "MPT root hash mismatch for block 1".to_string()
        ))
    );

    let wrong_value = MerkleProof::new(
        "test_key".to_string(),
        b"other".to_vec(),
        1,
        block.data.root_hash(),
        block.hash.clone(),
    );
    assert_eq!(
        ProofVerifier::verify_proof(&wrong_value, &blockchain),
        Err(BlockchainError::ProofError(
            "Key-value mismatch for key 'test_key' in block 1".to_string()
        ))
    );

    let good = block
        .data
        .generate_proof("test_key", 1, block.hash.clone())
        .unwrap();
    assert_eq!(
        ProofVerifier::verify_batch(&[good.clone(), good.clone()], &blockchain),
        Ok(vec![true, true])
    );
    assert_eq!(
        ProofVerifier::verify_batch(&[good, wrong_root, missing_block], &blockchain),
        Err(BlockchainError::ProofError(
            "MPT root hash mismatch for block 1".to_string()
        ))
    );
}

#[test]
fn proof_text_lists_every_field() {
    let proof = MerkleProof {
        key: "k".to_string(),
        value: b"v".to_vec(),
        block_index: 3,
        mpt_root_hash: vec![0xab, 0x01],
        block_hash: "h".to_string(),
        timestamp: "t".to_string(),
    };
    assert_eq!(
        proof.format(),
        "Merkle Proof:\nKey: k\nValue: v (1 bytes)\nBlock Index: 3\nBlock Hash: h\nMPT Root: ab01\nTimestamp: t"
    );
}
