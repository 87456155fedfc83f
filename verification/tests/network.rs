use libp2p::PeerId;
use vcbc::blockchain::{Block, NetworkConfig};
use vcbc::config::{BootnodeCertificate, NetworkAuthority};
use vcbc::network::http::HttpApi;
use vcbc::network::p2p::{
    default_network_config, format_peer_info, parse_multiaddr, HandshakeMessage, P2PEvent,
    P2PNetwork, PeerKey, ProtocolMessage,
};

fn random_peer() -> PeerKey {
    PeerKey::from_bytes(&PeerId::random().to_bytes()).unwrap()
}

fn test_config(genesis: &str) -> NetworkConfig {
    NetworkConfig {
        network_id: "test-net".to_string(),
        chain_id: 1,
        genesis_hash: genesis.to_string(),
        protocol_version: "1.0.0".to_string(),
    }
}

fn handshake(genesis: &str, protocols: Vec<String>) -> HandshakeMessage {
    HandshakeMessage {
        network_id: "test-net".to_string(),
        chain_id: 1,
        genesis_hash: genesis.to_string(),
        protocol_version: "1.0.0".to_string(),
        supported_protocols: protocols,
        node_version: "1.0.0".to_string(),
    }
}

#[test]
fn test_http_api_creation() {
    let _api = HttpApi::new();
}

#[test]
fn test_p2p_network_creation() {
    let config = test_config("test-hash");

    let network = P2PNetwork::new(config);
    assert_eq!(network.network_config().network_id, "test-net");
    assert_eq!(network.connected_peers_count(), 0);
}

#[test]
fn test_peer_handshake_validation_success() {
    let network = P2PNetwork::new(test_config("test-genesis"));
    let handshake = handshake(
        "test-genesis",
        vec!["sync".to_string(), "blocks".to_string()],
    );

    assert!(network.validate_peer_handshake(&handshake).is_ok());
}

#[test]
fn test_peer_handshake_validation_network_mismatch() {
    let network = P2PNetwork::new(test_config("test-genesis"));
    let mut handshake = handshake(
        "test-genesis",
        vec!["sync".to_string(), "blocks".to_string()],
    );
    handshake.network_id = "different-net".to_string(); // Different network

    assert!(network.validate_peer_handshake(&handshake).is_err());
}

#[test]
fn test_peer_handshake_validation_genesis_mismatch() {
    let network = P2PNetwork::new(test_config("test-genesis"));
    let handshake = handshake(
        "different-genesis", // Different genesis
        vec!["sync".to_string(), "blocks".to_string()],
    );

    assert!(network.validate_peer_handshake(&handshake).is_err());
}

#[test]
fn test_peer_management() {
    let mut network = P2PNetwork::new(test_config("test-genesis"));
    let peer_id = random_peer();

    // Initially no peers
    assert_eq!(network.connected_peers_count(), 0);

    // Add peer
    network.add_peer(peer_id.clone());
    assert_eq!(network.connected_peers_count(), 1);

    // Remove peer
    network.remove_peer(&peer_id);
    assert_eq!(network.connected_peers_count(), 0);
}

#[test]
fn test_parse_multiaddr() {
    let addr_str = "/ip4/127.0.0.1/tcp/8080";
    let result = parse_multiaddr(addr_str);
    assert!(result.is_ok());
}

#[test]
fn test_parse_multiaddr_invalid() {
    let addr_str = "invalid-address";
    let result = parse_multiaddr(addr_str);
    assert!(result.is_err());
}

#[test]
fn test_protocol_messages() {
    let mut network = P2PNetwork::new(test_config("test-genesis"));
    let peer_id = random_peer();

    // Test handshake message
    let handshake = handshake("test-genesis", vec!["sync".to_string()]);

    let handshake_msg = ProtocolMessage::Handshake(handshake.clone());
    let event = network.handle_message(peer_id.clone(), handshake_msg);

    assert!(event.is_some());
    match event.unwrap() {
        P2PEvent::PeerConnected {
            peer_id: event_peer_id,
            handshake: event_handshake,
        } => {
            assert_eq!(event_peer_id, peer_id);
            assert_eq!(event_handshake.network_id, handshake.network_id);
        }
        _ => panic!("Expected PeerConnected event"),
    }

    // Test block broadcast message
    let block = Block::genesis();
    let block_msg = ProtocolMessage::BlockBroadcast(block.clone());
    let event = network.handle_message(peer_id.clone(), block_msg);

    assert!(event.is_some());
    match event.unwrap() {
        P2PEvent::BlockReceived {
            peer_id: event_peer_id,
            block: event_block,
        } => {
            assert_eq!(event_peer_id, peer_id);
            assert_eq!(event_block.index, block.index);
        }
        _ => panic!("Expected BlockReceived event"),
    }
}

#[test]
fn test_chain_sync_messages() {
    let mut network = P2PNetwork::new(test_config("test-genesis"));
    let peer_id = random_peer();

    // Test chain sync request
    let sync_msg = ProtocolMessage::ChainSync { from_block: 5 };
    let event = network.handle_message(peer_id.clone(), sync_msg);

    assert!(event.is_some());
    match event.unwrap() {
        P2PEvent::ChainSyncRequested {
            peer_id: event_peer_id,
            from_block,
        } => {
            assert_eq!(event_peer_id, peer_id);
            assert_eq!(from_block, 5);
        }
        _ => panic!("Expected ChainSyncRequested event"),
    }

    // Test chain data response
    let blocks = vec![Block::genesis()];
    let chain_msg = ProtocolMessage::ChainData {
        blocks: blocks.clone(),
    };
    let event = network.handle_message(peer_id.clone(), chain_msg);

    assert!(event.is_some());
    match event.unwrap() {
        P2PEvent::ChainDataReceived {
            peer_id: event_peer_id,
            blocks: event_blocks,
        } => {
            assert_eq!(event_peer_id, peer_id);
            assert_eq!(event_blocks.len(), blocks.len());
        }
        _ => panic!("Expected ChainDataReceived event"),
    }
}

#[test]
fn test_proof_messages() {
    let mut network = P2PNetwork::new(test_config("test-genesis"));
    let peer_id = random_peer();

    // Test proof request
    let proof_request_msg = ProtocolMessage::ProofRequest {
        block_index: 1,
        key: "test_key".to_string(),
    };
    let event = network.handle_message(peer_id.clone(), proof_request_msg);

    assert!(event.is_some());
    match event.unwrap() {
        P2PEvent::ProofRequested {
            peer_id: event_peer_id,
            block_index,
            key,
        } => {
            assert_eq!(event_peer_id, peer_id);
            assert_eq!(block_index, 1);
            assert_eq!(key, "test_key");
        }
        _ => panic!("Expected ProofRequested event"),
    }
}

#[test]
fn test_secure_bootnode_discovery() {
    let network_config = NetworkConfig {
        network_id: "vc-mainnet".to_string(),
        chain_id: 1,
        genesis_hash: "test-genesis".to_string(),
        protocol_version: "1.0.0".to_string(),
    };

    let _network = P2PNetwork::new(network_config);

    // Create a mock authority and certificate
    let (authority, signing_key) = NetworkAuthority::new("vc-mainnet-authority".to_string());

    let mut cert = BootnodeCertificate::new(
        "node-123".to_string(),
        "vc-mainnet".to_string(),
        1,
        "http://bootnode.example.com:8080".to_string(),
        "/ip4/127.0.0.1/tcp/9090".to_string(),
        chrono::Utc::now().timestamp() + 86400,
    );
    cert.sign(&signing_key).expect("Failed to sign certificate");

    // Test certificate validation
    let result = cert.verify(&[authority]);
    assert!(
        result.is_ok(),
        "Valid certificate should verify successfully"
    );
}

#[test]
fn test_secure_discovery_wrong_network() {
    let network_config = NetworkConfig {
        network_id: "vc-testnet".to_string(), // Different network
        chain_id: 1,
        genesis_hash: "test-genesis".to_string(),
        protocol_version: "1.0.0".to_string(),
    };

    let _network = P2PNetwork::new(network_config);

    // Create certificate for different network
    let (authority, signing_key) = NetworkAuthority::new("vc-mainnet-authority".to_string());

    let mut cert = BootnodeCertificate::new(
        "node-123".to_string(),
        "vc-mainnet".to_string(), // Different network than P2P network
        1,
        "http://bootnode.example.com:8080".to_string(),
        "/ip4/127.0.0.1/tcp/9090".to_string(),
        chrono::Utc::now().timestamp() + 86400,
    );
    cert.sign(&signing_key).expect("Failed to sign certificate");

    // Certificate should verify against authority
    let result = cert.verify(&[authority]);
    assert!(
        result.is_ok(),
        "Certificate should verify against its authority"
    );
}

#[test]
fn test_local_peer_id() {
    let network = P2PNetwork::new(test_config("test-hash"));
    let peer_id = network.local_peer_id();
    assert!(!peer_id.to_text().is_empty());
}

#[test]
fn test_connected_peers_count() {
    let mut network = P2PNetwork::new(test_config("test-hash"));
    assert_eq!(network.connected_peers_count(), 0);

    let peer_id = random_peer();
    network.add_peer(peer_id);
    assert_eq!(network.connected_peers_count(), 1);
}

#[test]
fn test_simulate_handshake() {
    let mut network = P2PNetwork::new(test_config("test-hash"));
    let peer_id = random_peer();
    let handshake = handshake("test-hash", vec!["sync".to_string()]);

    network.simulate_handshake(peer_id.clone(), handshake);
    assert_eq!(network.connected_peers_count(), 1);
    assert!(network.is_connected(&peer_id));
}

#[test]
fn test_handle_message_handshake() {
    let mut network = P2PNetwork::new(test_config("test-hash"));
    let peer_id = random_peer();
    let handshake = handshake("test-hash", vec!["sync".to_string()]);
    let message = ProtocolMessage::Handshake(handshake.clone());

    let event = network.handle_message(peer_id.clone(), message);
    assert!(matches!(event, Some(P2PEvent::PeerConnected { .. })));
    assert!(network.is_connected(&peer_id));
}

#[test]
fn test_handle_message_block_broadcast() {
    let config = test_config("test-hash");
    let mut network = P2PNetwork::new(config.clone());
    let peer_id = random_peer();
    let block = Block::genesis_with_config(config.clone());
    let message = ProtocolMessage::BlockBroadcast(block);

    // Should handle and return BlockReceived event
    let event = network.handle_message(peer_id, message);
    assert!(matches!(event, Some(P2PEvent::BlockReceived { .. })));
}

#[test]
fn test_default_network_config() {
    let config = default_network_config();
    assert_eq!(config.network_id, "vc-mainnet");
    assert_eq!(config.chain_id, 1);
    assert_eq!(config.genesis_hash, ""); // Default config has empty genesis hash
    assert!(!config.protocol_version.is_empty());
}

#[test]
fn test_format_peer_info() {
    let peer_id = random_peer();
    let handshake = handshake(
        "test-hash",
        vec!["sync".to_string(), "blocks".to_string()],
    );

    let info = format_peer_info(&peer_id, &Some(handshake));
    assert!(info.contains(&peer_id.to_text()));
    assert!(info.contains("test-net"));
    assert!(info.contains("1.0.0"));
}

#[test]
fn test_format_peer_info_no_handshake() {
    let peer_id = random_peer();
    let info = format_peer_info(&peer_id, &None);
    assert!(info.contains(&peer_id.to_text()));
    assert!(info.contains("Handshake pending"));
}

#[test]
fn test_certificate_expiry_in_discovery() {
    // Create expired certificate
    let (authority, signing_key) = NetworkAuthority::new("vc-mainnet-authority".to_string());

    let mut cert = BootnodeCertificate::new(
        "node-123".to_string(),
        "vc-mainnet".to_string(),
        1,
        "http://bootnode.example.com:8080".to_string(),
        "/ip4/127.0.0.1/tcp/9090".to_string(),
        chrono::Utc::now().timestamp() - 86400, // Expired 1 day ago
    );
    cert.sign(&signing_key).expect("Failed to sign certificate");

    // Expired certificate should fail verification
    let result = cert.verify(&[authority]);
    assert!(
        result.is_err(),
        "Expired certificate should fail verification"
    );
}

#[test]
fn incompatible_handshake_is_reported_and_not_connected() {
    let mut network = P2PNetwork::new(test_config("test-hash"));
    let peer_id = random_peer();
    let message = ProtocolMessage::Handshake(handshake("other-hash", vec![]));
    match network.handle_message(peer_id.clone(), message) {
        Some(P2PEvent::IncompatiblePeer { peer_id: p, reason }) => {
            assert_eq!(p, peer_id);
            assert_eq!(
                reason,
                "Genesis mismatch: expected 'test-hash', received 'other-hash'"
            );
        }
        _ => panic!("Expected IncompatiblePeer event"),
    }
    assert_eq!(network.connected_peers_count(), 0);
    let proof_msg = ProtocolMessage::ProofResponse { proof: None };
    assert!(network.handle_message(peer_id, proof_msg).is_none());
}

#[test]
fn adding_a_peer_twice_keeps_one() {
    let mut network = P2PNetwork::new(test_config("h"));
    let a = random_peer();
    let b = random_peer();
    network.add_peer(a.clone());
    network.add_peer(a.clone());
    network.add_peer(b.clone());
    assert_eq!(network.connected_peers_count(), 2);
    network.remove_peer(&a);
    assert!(!network.is_connected(&a));
    assert!(network.is_connected(&b));
    network.remove_peer(&a);
    assert_eq!(network.connected_peers_count(), 1);
}

#[test]
fn bootnode_admission_checks_certificate_and_network() {
    let network = P2PNetwork::new(NetworkConfig {
        network_id: "vc-mainnet".to_string(),
        chain_id: 1,
        genesis_hash: "g".to_string(),
        protocol_version: "1.0.0".to_string(),
    });
    let (authority, key) = NetworkAuthority::new("vc-mainnet-authority".to_string());
    let mut cert = BootnodeCertificate::new(
        "node".to_string(),
        "vc-mainnet".to_string(),
        1,
        "http://b".to_string(),
        "/ip4/127.0.0.1/tcp/1".to_string(),
        500,
    );
    cert.sign(&key).unwrap();
    assert_eq!(network.admit_bootnode_at(&cert, &[authority.clone()], 10), Ok(true));
    assert!(network.admit_bootnode_at(&cert, &[authority.clone()], 500).is_err());
    let mut other_chain = cert.clone();
    other_chain.chain_id = 2;
    other_chain.sign(&key).unwrap();
    assert_eq!(network.admit_bootnode_at(&other_chain, &[authority], 10), Ok(false));
}

#[test]
fn invalid_multiaddr_message_names_the_text() {
    let err = parse_multiaddr("invalid-address").unwrap_err();
    assert!(err.message().starts_with("Invalid input: Invalid multiaddr 'invalid-address': "));
}
