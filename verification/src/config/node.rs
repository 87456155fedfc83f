//! Node configuration for bootnodes and regular nodes, and its validation.

use vstd::prelude::*;
use vstd::string::*;
use crate::clock::{now_unix_seconds, is_clock_second, latest_clock_second};
use crate::config::authority::NetworkAuthority;
use crate::config::certificate::BootnodeCertificate;
use crate::config::authority::{AuthorityKey, is_keypair_of, is_key_text_of, publishes_key_of};
use crate::config::certificate::{
    signed_with, certificate_check, first_authority, authority_name, lemma_signed_certificate_verifies,
};
use crate::crypto::{uuid_v4_simple, base64_decode, ed25519_keypair_secret, spec_base64_decode, spec_ed25519_keypair};
use crate::error::BlockchainError;
use crate::text::{trim_text, spec_trim};

verus! {

/// Node configuration for VCBC blockchain network
#[derive(Clone, Debug)]
pub struct NodeConfig {
    /// Unique node identifier (auto-generated)
    pub node_id: String,
    /// Network identifier (e.g., "vc-mainnet", "vc-testnet")
    pub network_id: String,
    /// Chain identifier for network isolation
    pub chain_id: u64,
    /// Genesis block hash for network validation
    pub genesis_hash: String,
    /// Bootstrap node URLs (HTTP endpoints for peer discovery)
    pub bootstrap_nodes: Vec<String>,
    /// Local data storage path
    pub storage_path: String,
    /// HTTP API server port
    pub http_port: u16,
    /// P2P network port
    pub p2p_port: u16,
    /// Mining difficulty level
    pub difficulty: usize,
    /// Node type (bootnode or regular)
    pub node_type: NodeType,
    /// Bootnode certificate (only for certified bootnodes)
    pub certificate: Option<BootnodeCertificate>,
    /// Trusted network authorities for certificate verification
    pub trusted_authorities: Vec<NetworkAuthority>,
}

/// Type of node in the network
#[derive(Clone, Copy, Debug, PartialEq, Eq, Structural)]
pub enum NodeType {
    /// Bootstrap node that helps other nodes discover peers
    Bootnode,
    /// Regular node that participates in the network
    Regular,
}

/// A generated node identifier: "node-" followed by 32 characters.
pub open spec fn is_generated_id(id: Seq<char>) -> bool {
    &&& id.len() == 37
    &&& id.subrange(0, 5) == "node-"@
}

/// The settings that both kinds of node start from.
pub open spec fn fresh_config(c: NodeConfig, http_port: u16, p2p_port: u16) -> bool {
    &&& is_generated_id(c.node_id@)
    &&& c.genesis_hash@ == Seq::<char>::empty()
    &&& c.storage_path@ == "./data"@
    &&& c.http_port == http_port
    &&& c.p2p_port == p2p_port
    &&& c.difficulty == 2
    &&& c.certificate is None
    &&& c.trusted_authorities@.len() == 0
}

/// What validating a configuration at time `now` finds wrong first, if
/// anything: the message of the error.
pub open spec fn config_problem(c: NodeConfig, now: i64) -> Option<Seq<char>> {
    if c.node_id@.len() == 0 {
        Some("Node ID cannot be empty"@)
    } else if c.network_id@.len() == 0 && c.node_type == NodeType::Bootnode {
        Some("Network ID required for bootnode"@)
    } else if c.http_port == 0 {
        Some("HTTP port must be greater than 0"@)
    } else if c.p2p_port == 0 {
        Some("P2P port must be greater than 0"@)
    } else if c.node_type == NodeType::Regular && c.bootstrap_nodes@.len() == 0 {
        Some("Regular node must have at least one bootstrap node"@)
    } else {
        match c.certificate {
            Some(cert) => if cert.expires_at <= now {
                Some("Bootnode certificate has expired"@)
            } else if cert.node_id@ != c.node_id@ {
                Some("Certificate node ID mismatch"@)
            } else if cert.network_id@ != c.network_id@ {
                Some("Certificate network ID mismatch"@)
            } else if cert.chain_id != c.chain_id {
                Some("Certificate chain ID mismatch"@)
            } else {
                None
            },
            None => None,
        }
    }
}

/// Generate a unique node ID
pub fn generate_node_id() -> (id: String)
    ensures
        is_generated_id(id@),
{
    let mut id = String::from_str("node-");
    id.append(uuid_v4_simple().as_str());
    proof {
        reveal_strlit("node-");
        assert(id@.subrange(0, 5) =~= "node-"@);
    }
    id
}

/// A copy of a list of strings.
fn copy_strings(v: &Vec<String>) -> (c: Vec<String>)
    ensures
        c@.len() == v@.len(),
        forall|i: int| 0 <= i < v@.len() ==> #[trigger] c@[i]@ == v@[i]@,
{
    let mut c: Vec<String> = Vec::new();
    let mut i: usize = 0;
    while i < v.len()
        invariant
            i <= v@.len(),
            c@.len() == i,
            forall|j: int| 0 <= j < i ==> #[trigger] c@[j]@ == v@[j]@,
        decreases v@.len() - i,
    {
        c.push(v[i].clone());
        i = i + 1;
    }
    c
}

impl NodeConfig {
    /// Create a new bootnode configuration
    pub fn bootnode(network_id: String, chain_id: u64, http_port: u16, p2p_port: u16) -> (config: Self)
        ensures
            fresh_config(config, http_port, p2p_port),
            config.network_id == network_id,
            config.chain_id == chain_id,
            config.bootstrap_nodes@.len() == 0,
            config.node_type == NodeType::Bootnode,
    {
        Self {
            node_id: generate_node_id(),
            network_id,
            chain_id,
            // Will be set when blockchain is created
            genesis_hash: String::new(),
            // Bootnode doesn't need bootstrap nodes
            bootstrap_nodes: Vec::new(),
            storage_path: String::from_str("./data"),
            http_port,
            p2p_port,
            difficulty: 2,
            node_type: NodeType::Bootnode,
            certificate: None,
            trusted_authorities: Vec::new(),
        }
    }

    /// Create a new regular node configuration
    pub fn regular_node(bootstrap_url: String, http_port: u16, p2p_port: u16) -> (config: Self)
        ensures
            fresh_config(config, http_port, p2p_port),
            config.network_id@ == Seq::<char>::empty(),
            config.chain_id == 0,
            config.bootstrap_nodes@ == seq![bootstrap_url],
            config.node_type == NodeType::Regular,
    {
        let mut bootstrap_nodes: Vec<String> = Vec::new();
        bootstrap_nodes.push(bootstrap_url);
        Self {
            node_id: generate_node_id(),
            // Will be discovered from bootstrap
            network_id: String::new(),
            chain_id: 0,
            genesis_hash: String::new(),
            bootstrap_nodes,
            storage_path: String::from_str("./data"),
            http_port,
            p2p_port,
            difficulty: 2,
            node_type: NodeType::Regular,
            certificate: None,
            trusted_authorities: Vec::new(),
        }
    }

    /// Validate configuration: the validation at the clock's current time,
    /// which lies between the Unix epoch and chrono's latest instant. Only a
    /// certificate's expiry depends on the time, so without a certificate,
    /// or with one expiring after that instant, the result is fixed.
    pub fn validate(&self) -> (res: Result<(), BlockchainError>)
        ensures
            exists|now: i64| #[trigger]
                is_clock_second(now) && match config_problem(*self, now) {
                    None => res is Ok,
                    Some(m) => res matches Err(BlockchainError::InvalidInput(x)) && x@ == m,
                },
            (self.certificate matches Some(c) ==> c.expires_at > latest_clock_second()) ==> match config_problem(
                *self,
                latest_clock_second(),
            ) {
                None => res is Ok,
                Some(m) => res matches Err(BlockchainError::InvalidInput(x)) && x@ == m,
            },
    {
        let now = now_unix_seconds();
        proof {
            assert((self.certificate matches Some(c) ==> c.expires_at > latest_clock_second()) ==> config_problem(
                *self,
                now,
            ) == config_problem(*self, latest_clock_second()));
        }
        self.validate_at(now)
    }

    /// Validate configuration at the given time (which decides whether a
    /// certificate has expired).
    pub fn validate_at(&self, now: i64) -> (res: Result<(), BlockchainError>)
        ensures
            match config_problem(*self, now) {
                None => res is Ok,
                Some(m) => res matches Err(BlockchainError::InvalidInput(x)) && x@ == m,
            },
            res is Ok ==> {
                &&& self.node_id@.len() > 0
                &&& self.node_type == NodeType::Bootnode ==> self.network_id@.len() > 0
                &&& self.http_port > 0
                &&& self.p2p_port > 0
                &&& self.node_type == NodeType::Regular ==> self.bootstrap_nodes@.len() > 0
                &&& self.certificate matches Some(cert) ==> {
                    &&& cert.expires_at > now
                    &&& cert.node_id@ == self.node_id@
                    &&& cert.network_id@ == self.network_id@
                    &&& cert.chain_id == self.chain_id
                }
            },
            res is Err ==> (res matches Err(BlockchainError::InvalidInput(_))),
    {
        if self.node_id.as_str().is_empty() {
            return Err(BlockchainError::InvalidInput(String::from_str("Node ID cannot be empty")));
        }
        if self.network_id.as_str().is_empty() && matches!(self.node_type, NodeType::Bootnode) {
            return Err(BlockchainError::InvalidInput(String::from_str("Network ID required for bootnode")));
        }
        if self.http_port == 0 {
            return Err(BlockchainError::InvalidInput(String::from_str("HTTP port must be greater than 0")));
        }
        if self.p2p_port == 0 {
            return Err(BlockchainError::InvalidInput(String::from_str("P2P port must be greater than 0")));
        }
        if matches!(self.node_type, NodeType::Regular) && self.bootstrap_nodes.len() == 0 {
            return Err(
                BlockchainError::InvalidInput(String::from_str("Regular node must have at least one bootstrap node")),
            );
        }
        // Validate certificate if present
        match &self.certificate {
            Some(cert) => {
                if cert.is_expired_at(now) {
                    return Err(BlockchainError::InvalidInput(String::from_str("Bootnode certificate has expired")));
                }
                if !(cert.node_id == self.node_id) {
                    return Err(BlockchainError::InvalidInput(String::from_str("Certificate node ID mismatch")));
                }
                if !(cert.network_id == self.network_id) {
                    return Err(BlockchainError::InvalidInput(String::from_str("Certificate network ID mismatch")));
                }
                if cert.chain_id != self.chain_id {
                    return Err(BlockchainError::InvalidInput(String::from_str("Certificate chain ID mismatch")));
                }
            },
            None => {},
        }
        Ok(())
    }

    /// Get bootstrap URLs as HTTP endpoints
    pub fn bootstrap_urls(&self) -> (urls: Vec<String>)
        ensures
            urls@.len() == self.bootstrap_nodes@.len(),
            forall|i: int| 0 <= i < urls@.len() ==> #[trigger] urls@[i]@ == self.bootstrap_nodes@[i]@,
    {
        copy_strings(&self.bootstrap_nodes)
    }

    /// Check if this is a bootnode
    pub fn is_bootnode(&self) -> (b: bool)
        ensures
            b == (self.node_type == NodeType::Bootnode),
    {
        matches!(self.node_type, NodeType::Bootnode)
    }
}

/// How long a bootnode certificate is valid: 30 days, in seconds.
pub const CERTIFICATE_LIFETIME: i64 = 2592000;

/// What registering a bootnode finds wrong first, if anything: the message
/// of the error.
pub open spec fn registration_problem(config: NodeConfig, private_key_text: Seq<char>, now: i64) -> Option<
    Seq<char>,
> {
    match config_problem(config, now) {
        Some(m) => Some(m),
        None => if config.node_type != NodeType::Bootnode {
            Some("Configuration is not for a bootnode"@)
        } else {
            match spec_base64_decode(spec_trim(private_key_text)) {
                Err(e) => Some("Invalid private key format: "@ + e),
                Ok(b) => if b.len() != 64 {
                    Some("Private key must be exactly 64 bytes (keypair)"@)
                } else {
                    match spec_ed25519_keypair(b) {
                        Err(e) => Some("Invalid private key: "@ + e),
                        Ok(_) => None,
                    }
                },
            }
        },
    }
}

/// A bootnode registered with the key text of an authority's key carries
/// a certificate that passes the check against trusted authorities whose
/// first authority of the network is that authority, until it expires.
pub proof fn lemma_registered_bootnode_verifies(
    cert: BootnodeCertificate,
    key_text: Seq<char>,
    secret: Seq<u8>,
    authority: NetworkAuthority,
    auths: Seq<NetworkAuthority>,
    now: i64,
)
    requires
        secret.len() == 32,
        is_key_text_of(key_text, secret),
        signed_with(cert, spec_base64_decode(spec_trim(key_text))->Ok_0.subrange(0, 32)),
        publishes_key_of(authority, secret),
        first_authority(auths, authority_name(cert.network_id@)) == Some(authority),
        cert.expires_at > now,
    ensures
        certificate_check(cert, auths, now) is Ok,
{
    lemma_signed_certificate_verifies(cert, secret, authority, auths, now);
}

/// Register and certify a bootnode: check the bootnode's configuration,
/// read the authority's keypair from its base64 text, and give the
/// configuration a certificate for `node_id`, valid for 30 days from
/// `now`, at the default endpoints, signed with the authority's key.
pub fn certify_bootnode(config: NodeConfig, node_id: String, private_key_text: &str, now: i64) -> (res: Result<
    NodeConfig,
    BlockchainError,
>)
    requires
        now <= i64::MAX - CERTIFICATE_LIFETIME,
    ensures
        config_problem(config, now) is None && config.node_type == NodeType::Bootnode && (spec_base64_decode(
            spec_trim(private_key_text@),
        ) matches Ok(b) && is_keypair_of(b, b.subrange(0, 32))) ==> res is Ok,
        match registration_problem(config, private_key_text@, now) {
            Some(m) => res matches Err(BlockchainError::InvalidInput(x)) && x@ == m,
            None => res matches Ok(c) && {
                &&& c.node_id == config.node_id
                &&& c.network_id == config.network_id
                &&& c.chain_id == config.chain_id
                &&& c.bootstrap_nodes == config.bootstrap_nodes
                &&& c.http_port == config.http_port
                &&& c.p2p_port == config.p2p_port
                &&& c.node_type == config.node_type
                &&& c.certificate matches Some(cert) && {
                    &&& cert.node_id == node_id
                    &&& cert.network_id@ == config.network_id@
                    &&& cert.chain_id == config.chain_id
                    &&& cert.http_url@ == "http://localhost:8080"@
                    &&& cert.p2p_multiaddr@ == "/ip4/127.0.0.1/tcp/9090"@
                    &&& cert.expires_at == now + CERTIFICATE_LIFETIME
                    &&& exists|secret: Seq<u8>|
                        #![trigger signed_with(cert, secret)]
                        spec_ed25519_keypair(spec_base64_decode(spec_trim(private_key_text@))->Ok_0) == Ok::<
                            Seq<u8>,
                            Seq<char>,
                        >(secret) && secret == spec_base64_decode(spec_trim(private_key_text@))->Ok_0.subrange(0, 32)
                            && signed_with(cert, secret)
                }
            },
        },
{
    let mut config = config;
    match config.validate_at(now) {
        Ok(()) => {},
        Err(e) => {
            return Err(e);
        },
    }
    if !config.is_bootnode() {
        return Err(BlockchainError::InvalidInput(String::from_str("Configuration is not for a bootnode")));
    }
    // Load the authority private key
    let trimmed = trim_text(private_key_text);
    let private_key_bytes = match base64_decode(trimmed.as_str()) {
        Ok(b) => b,
        Err(e) => {
            let mut m = String::from_str("Invalid private key format: ");
            m.append(e.as_str());
            return Err(BlockchainError::InvalidInput(m));
        },
    };
    if private_key_bytes.len() != 64 {
        return Err(BlockchainError::InvalidInput(String::from_str("Private key must be exactly 64 bytes (keypair)")));
    }
    let secret = match ed25519_keypair_secret(private_key_bytes.as_slice()) {
        Ok(s) => s,
        Err(e) => {
            let mut m = String::from_str("Invalid private key: ");
            m.append(e.as_str());
            return Err(BlockchainError::InvalidInput(m));
        },
    };
    let signing_key = match AuthorityKey::from_bytes(secret.as_slice()) {
        Some(k) => k,
        None => {
            return Err(BlockchainError::InvalidInput(String::from_str("Invalid private key")));
        },
    };
    // Calculate expiry timestamp (30 days default)
    let expiry_timestamp = now + CERTIFICATE_LIFETIME;
    // Create and sign the certificate
    let mut certificate = BootnodeCertificate::new(
        node_id,
        config.network_id.clone(),
        config.chain_id,
        String::from_str("http://localhost:8080"),
        String::from_str("/ip4/127.0.0.1/tcp/9090"),
        expiry_timestamp,
    );
    match certificate.sign(&signing_key) {
        Ok(()) => {},
        Err(e) => {
            return Err(e);
        },
    }
    proof {
        assert(signed_with(certificate, secret@));
    }
    // Update the configuration with the certificate
    config.certificate = Some(certificate);
    Ok(config)
}

} // verus!
