//! Peer-to-peer networking: peer identities, the handshake that keeps
//! networks apart, the set of connected peers, and the handling of
//! protocol messages.

use vstd::prelude::*;
use vstd::string::*;
use crate::blockchain::{Block, NetworkConfig};
use crate::config::{BootnodeCertificate, NetworkAuthority};
use crate::config::certificate::certificate_check;
use crate::error::{BlockchainError, Result};
use crate::proofs::MerkleProof;
use crate::text::{bytes_eq, dec_chars, u64_to_string};

verus! {

/// Protocol identifiers for blockchain communication
pub const SYNC_PROTOCOL: &'static str = "/blockchain/sync/1.0.0";

pub const BLOCKS_PROTOCOL: &'static str = "/blockchain/blocks/1.0.0";

pub const PROOF_PROTOCOL: &'static str = "/blockchain/proof/1.0.0";

/// Whether bytes are a libp2p peer ID (`PeerId::from_bytes` accepts them).
pub uninterp spec fn spec_peer_id_valid(bytes: Seq<u8>) -> bool;

/// The text of a peer ID: `PeerId`'s `Display`, base58.
pub uninterp spec fn spec_peer_id_text(bytes: Seq<u8>) -> Seq<char>;

/// What parsing a text as a multiaddr gives: nothing wrong, or the error's
/// text.
pub uninterp spec fn spec_multiaddr_parse(text: Seq<char>) -> core::result::Result<(), Seq<char>>;

#[verifier::external_type_specification]
#[verifier::external_body]
pub struct ExMultiaddr(libp2p::Multiaddr);

/// `PeerId::random().to_bytes()`: the bytes of a random peer ID, which
/// `PeerId::from_bytes` accepts.
#[verifier::external_body]
fn random_peer_id_bytes() -> (bytes: Vec<u8>)
    ensures
        spec_peer_id_valid(bytes@),
{
    libp2p::PeerId::random().to_bytes()
}

/// `Keypair::generate_ed25519()` and the `PeerId` of its public key, as
/// bytes: a fresh local identity, which `PeerId::from_bytes` accepts.
#[verifier::external_body]
fn generated_peer_id_bytes() -> (bytes: Vec<u8>)
    ensures
        spec_peer_id_valid(bytes@),
{
    let local_key = libp2p::identity::Keypair::generate_ed25519();
    libp2p::PeerId::from(local_key.public()).to_bytes()
}

/// `PeerId::from_bytes(bytes).is_ok()`, as named by `spec_peer_id_valid`.
#[verifier::external_body]
fn peer_id_bytes_valid(bytes: &[u8]) -> (valid: bool)
    ensures
        valid == spec_peer_id_valid(bytes@),
{
    libp2p::PeerId::from_bytes(bytes).is_ok()
}

/// The `Display` text of the peer ID with the given bytes, as named by
/// `spec_peer_id_text`.
#[verifier::external_body]
fn peer_id_text(bytes: &[u8]) -> (text: String)
    requires
        spec_peer_id_valid(bytes@),
    ensures
        text@ == spec_peer_id_text(bytes@),
{
    libp2p::PeerId::from_bytes(bytes).unwrap().to_string()
}

/// `text.parse::<Multiaddr>()`: the address, or the error's text; whether
/// it parses is as named by `spec_multiaddr_parse`.
#[verifier::external_body]
fn multiaddr_parse(text: &str) -> (res: core::result::Result<libp2p::Multiaddr, String>)
    ensures
        match spec_multiaddr_parse(text@) {
            Ok(()) => res is Ok,
            Err(e) => res matches Err(m) && m@ == e,
        },
{
    match text.parse::<libp2p::Multiaddr>() {
        Ok(a) => Ok(a),
        Err(e) => Err(e.to_string()),
    }
}

/// A peer's identity: the bytes of its libp2p peer ID.
#[derive(Debug)]
pub struct PeerKey {
    bytes: Vec<u8>,
}

impl PartialEq for PeerKey {
    fn eq(&self, other: &Self) -> (r: bool) {
        bytes_eq(self.bytes.as_slice(), other.bytes.as_slice())
    }
}

impl vstd::std_specs::cmp::PartialEqSpecImpl for PeerKey {
    open spec fn obeys_eq_spec() -> bool {
        true
    }

    open spec fn eq_spec(&self, other: &Self) -> bool {
        self.spec_bytes() == other.spec_bytes()
    }
}

impl PeerKey {
    #[verifier::type_invariant]
    spec fn inv(&self) -> bool {
        spec_peer_id_valid(self.bytes@)
    }

    /// The bytes of the peer ID.
    pub closed spec fn spec_bytes(&self) -> Seq<u8> {
        self.bytes@
    }

    /// A random peer identity.
    pub fn random() -> (key: Self)
        ensures
            spec_peer_id_valid(key.spec_bytes()),
    {
        PeerKey { bytes: random_peer_id_bytes() }
    }

    /// The identity with the given peer ID bytes, if they are a peer ID.
    pub fn from_bytes(bytes: &[u8]) -> (key: Option<Self>)
        ensures
            key is Some <==> spec_peer_id_valid(bytes@),
            key matches Some(k) ==> k.spec_bytes() == bytes@,
    {
        if peer_id_bytes_valid(bytes) {
            Some(PeerKey { bytes: vstd::slice::slice_to_vec(bytes) })
        } else {
            None
        }
    }

    /// The bytes of the peer ID.
    pub fn to_bytes(&self) -> (bytes: Vec<u8>)
        ensures
            bytes@ == self.spec_bytes(),
    {
        crate::mpt::node::copy_bytes(&self.bytes)
    }

    /// The text of the peer ID (base58).
    pub fn to_text(&self) -> (text: String)
        ensures
            text@ == spec_peer_id_text(self.spec_bytes()),
    {
        proof {
            use_type_invariant(self);
        }
        peer_id_text(self.bytes.as_slice())
    }
}

/// Handshake message exchanged between peers for network validation
#[derive(Debug, Clone)]
pub struct HandshakeMessage {
    pub network_id: String,
    pub chain_id: u64,
    pub genesis_hash: String,
    pub protocol_version: String,
    pub supported_protocols: Vec<String>,
    pub node_version: String,
}

/// Protocol message types
#[derive(Debug, Clone)]
pub enum ProtocolMessage {
    /// Handshake message for peer introduction
    Handshake(HandshakeMessage),
    /// Block propagation message
    BlockBroadcast(Block),
    /// Chain synchronization request
    ChainSync { from_block: u64 },
    /// Chain synchronization response
    ChainData { blocks: Vec<Block> },
    /// Proof request
    ProofRequest { block_index: u64, key: String },
    /// Proof response
    ProofResponse { proof: Option<MerkleProof> },
}

/// Events emitted by the P2P network
#[derive(Debug)]
pub enum P2PEvent {
    /// New peer discovered and connected
    PeerConnected { peer_id: PeerKey, handshake: HandshakeMessage },
    /// Peer disconnected
    PeerDisconnected { peer_id: PeerKey },
    /// New block received from peer
    BlockReceived { peer_id: PeerKey, block: Block },
    /// Chain synchronization request
    ChainSyncRequested { peer_id: PeerKey, from_block: u64 },
    /// Chain data received from peer
    ChainDataReceived { peer_id: PeerKey, blocks: Vec<Block> },
    /// Proof request received
    ProofRequested { peer_id: PeerKey, block_index: u64, key: String },
    /// Network compatibility validation failed
    IncompatiblePeer { peer_id: PeerKey, reason: String },
}

/// Main P2P network manager
pub struct P2PNetwork {
    network_config: NetworkConfig,
    connected_peers: Vec<PeerKey>,
    local_peer_id: PeerKey,
}

/// What checking a handshake against a network configuration finds:
/// nothing wrong, or the first mismatch (label, expected, received).
pub open spec fn handshake_problem(config: NetworkConfig, h: HandshakeMessage) -> Option<(int, Seq<char>, Seq<char>)> {
    if h.network_id@ != config.network_id@ {
        Some((0, config.network_id@, h.network_id@))
    } else if h.genesis_hash@ != config.genesis_hash@ {
        Some((1, config.genesis_hash@, h.genesis_hash@))
    } else if h.protocol_version@ != config.protocol_version@ {
        Some((2, config.protocol_version@, h.protocol_version@))
    } else {
        None
    }
}

/// Networks stay apart: a handshake from another network, or from a chain
/// with another genesis block, is refused (so the peer does not join), and
/// one that names this network, genesis block and protocol version is
/// accepted.
pub proof fn lemma_handshakes_keep_networks_apart(config: NetworkConfig, h: HandshakeMessage)
    ensures
        h.network_id@ != config.network_id@ || h.genesis_hash@ != config.genesis_hash@ ==> handshake_problem(
            config,
            h,
        ) is Some,
        h.network_id@ == config.network_id@ && h.genesis_hash@ == config.genesis_hash@ && h.protocol_version@
            == config.protocol_version@ ==> handshake_problem(config, h) is None,
{
}

/// The error reports the mismatch: the variant of its kind, with the
/// expected and the received value.
pub open spec fn reports_mismatch(e: BlockchainError, kind: int, expected: Seq<char>, received: Seq<char>) -> bool {
    match e {
        BlockchainError::NetworkMismatch { expected: x, received: r } => kind == 0 && x@ == expected && r@ == received,
        BlockchainError::GenesisMismatch { expected: x, received: r } => kind == 1 && x@ == expected && r@ == received,
        BlockchainError::ProtocolMismatch { expected: x, received: r } => kind == 2 && x@ == expected && r@
            == received,
        _ => false,
    }
}

/// The text that `format_peer_info` gives.
pub open spec fn peer_info_text(peer: Seq<u8>, handshake: Option<HandshakeMessage>) -> Seq<char> {
    match handshake {
        Some(hs) => "Peer "@ + spec_peer_id_text(peer) + ": Network '"@ + hs.network_id@ + "', Chain ID "@ + dec_chars(
            hs.chain_id as nat,
        ) + ", Version "@ + hs.protocol_version@,
        None => "Peer "@ + spec_peer_id_text(peer) + ": Handshake pending"@,
    }
}

/// A copy of a string.
fn copy_string(s: &String) -> (c: String)
    ensures
        c@ == s@,
{
    s.clone()
}

/// Adding a peer that was not connected and removing it again gives back
/// the connected peers as they were, and the count as it was.
pub proof fn lemma_add_then_remove_restores_peers(
    start: P2PNetwork,
    added: P2PNetwork,
    removed: P2PNetwork,
    peer: PeerKey,
)
    requires
        !start.peers().contains(peer.spec_bytes()),
        added.peers() == start.peers().insert(peer.spec_bytes()),
        removed.peers() == added.peers().remove(peer.spec_bytes()),
    ensures
        removed.peers() == start.peers(),
        removed.peers().len() == start.peers().len(),
        added.peers().len() == start.peers().len() + 1,
{
    vstd::seq_lib::seq_to_set_is_finite(start.peer_list());
    assert(removed.peers() =~= start.peers());
}

impl P2PNetwork {
    #[verifier::type_invariant]
    spec fn inv(&self) -> bool {
        self.peer_list().no_duplicates()
    }

    /// The peer IDs of the connected peers, in the order they joined.
    pub closed spec fn peer_list(&self) -> Seq<Seq<u8>> {
        self.connected_peers@.map_values(|p: PeerKey| p.spec_bytes())
    }

    /// The set of connected peers.
    pub open spec fn peers(&self) -> Set<Seq<u8>> {
        self.peer_list().to_set()
    }

    /// The network configuration.
    pub closed spec fn spec_config(&self) -> NetworkConfig {
        self.network_config
    }

    /// The local peer identity.
    pub closed spec fn spec_local_peer(&self) -> PeerKey {
        self.local_peer_id
    }

    /// Create a new P2P network instance
    pub fn new(network_config: NetworkConfig) -> (net: Self)
        ensures
            net.spec_config() == network_config,
            net.peers() == Set::<Seq<u8>>::empty(),
    {
        let local_peer_id = PeerKey { bytes: generated_peer_id_bytes() };
        let net = Self { network_config, connected_peers: Vec::new(), local_peer_id };
        assert(net.peer_list() =~= Seq::<Seq<u8>>::empty());
        assert(net.peers() =~= Set::<Seq<u8>>::empty());
        net
    }

    /// The network configuration.
    pub fn network_config(&self) -> (config: &NetworkConfig)
        ensures
            *config == self.spec_config(),
    {
        &self.network_config
    }

    /// Validate peer compatibility based on handshake
    pub fn validate_peer_handshake(&self, handshake: &HandshakeMessage) -> (res: Result<()>)
        ensures
            match handshake_problem(self.spec_config(), *handshake) {
                None => res is Ok,
                Some((kind, expected, received)) => res matches Err(e) && reports_mismatch(e, kind, expected, received),
            },
            res is Ok ==> handshake.network_id@ == self.spec_config().network_id@ && handshake.genesis_hash@
                == self.spec_config().genesis_hash@ && handshake.protocol_version@
                == self.spec_config().protocol_version@,
            handshake.network_id@ != self.spec_config().network_id@ ==> (res matches Err(
                BlockchainError::NetworkMismatch { expected, received },
            ) && expected@ == self.spec_config().network_id@ && received@ == handshake.network_id@),
            handshake.network_id@ == self.spec_config().network_id@ && handshake.genesis_hash@
                != self.spec_config().genesis_hash@ ==> (res matches Err(
                BlockchainError::GenesisMismatch { expected, received },
            ) && expected@ == self.spec_config().genesis_hash@ && received@ == handshake.genesis_hash@),
            handshake.network_id@ == self.spec_config().network_id@ && handshake.genesis_hash@
                == self.spec_config().genesis_hash@ && handshake.protocol_version@
                != self.spec_config().protocol_version@ ==> (res matches Err(
                BlockchainError::ProtocolMismatch { expected, received },
            ) && expected@ == self.spec_config().protocol_version@ && received@ == handshake.protocol_version@),
    {
        if !(handshake.network_id == self.network_config.network_id) {
            return Err(
                BlockchainError::NetworkMismatch {
                    expected: copy_string(&self.network_config.network_id),
                    received: copy_string(&handshake.network_id),
                },
            );
        }
        if !(handshake.genesis_hash == self.network_config.genesis_hash) {
            return Err(
                BlockchainError::GenesisMismatch {
                    expected: copy_string(&self.network_config.genesis_hash),
                    received: copy_string(&handshake.genesis_hash),
                },
            );
        }
        if !(handshake.protocol_version == self.network_config.protocol_version) {
            return Err(
                BlockchainError::ProtocolMismatch {
                    expected: copy_string(&self.network_config.protocol_version),
                    received: copy_string(&handshake.protocol_version),
                },
            );
        }
        Ok(())
    }

    /// Get the local peer ID
    pub fn local_peer_id(&self) -> (peer: &PeerKey)
        ensures
            *peer == self.spec_local_peer(),
    {
        &self.local_peer_id
    }

    /// Get connected peers count
    pub fn connected_peers_count(&self) -> (count: usize)
        ensures
            count == self.peers().len(),
    {
        proof {
            use_type_invariant(self);
            self.peer_list().unique_seq_to_set();
        }
        self.connected_peers.len()
    }

    /// The connected peers, in the order they joined.
    pub fn connected_peers(&self) -> (peers: Vec<PeerKey>)
        ensures
            peers@.len() == self.peer_list().len(),
            forall|i: int| 0 <= i < peers@.len() ==> #[trigger] peers@[i].spec_bytes() == self.peer_list()[i],
    {
        let mut peers: Vec<PeerKey> = Vec::new();
        let mut i: usize = 0;
        while i < self.connected_peers.len()
            invariant
                i <= self.connected_peers@.len(),
                self.peer_list().len() == self.connected_peers@.len(),
                peers@.len() == i,
                forall|j: int| 0 <= j < i ==> #[trigger] peers@[j].spec_bytes() == self.peer_list()[j],
            decreases self.connected_peers@.len() - i,
        {
            peers.push(self.connected_peers[i].clone());
            i = i + 1;
        }
        peers
    }

    /// Whether a peer is connected.
    pub fn is_connected(&self, peer_id: &PeerKey) -> (connected: bool)
        ensures
            connected == self.peers().contains(peer_id.spec_bytes()),
    {
        self.position_of(peer_id).is_some()
    }

    /// Where a peer stands in the list of connected peers.
    fn position_of(&self, peer_id: &PeerKey) -> (pos: Option<usize>)
        ensures
            pos matches Some(i) ==> i < self.peer_list().len() && self.peer_list()[i as int] == peer_id.spec_bytes(),
            pos is None ==> !self.peers().contains(peer_id.spec_bytes()),
    {
        let mut i: usize = 0;
        while i < self.connected_peers.len()
            invariant
                i <= self.connected_peers@.len(),
                self.peer_list().len() == self.connected_peers@.len(),
                forall|j: int| 0 <= j < i ==> self.peer_list()[j] != peer_id.spec_bytes(),
            decreases self.connected_peers@.len() - i,
        {
            if self.connected_peers[i] == *peer_id {
                return Some(i);
            }
            i = i + 1;
        }
        proof {
            if self.peers().contains(peer_id.spec_bytes()) {
                let j = choose|j: int| 0 <= j < self.peer_list().len() && self.peer_list()[j] == peer_id.spec_bytes();
                assert(self.peer_list()[j] != peer_id.spec_bytes());
            }
        }
        None
    }

    /// Add a peer to the connected set (for testing/simulation)
    pub fn add_peer(&mut self, peer_id: PeerKey)
        ensures
            final(self).peers() == old(self).peers().insert(peer_id.spec_bytes()),
            final(self).spec_config() == old(self).spec_config(),
            final(self).spec_local_peer() == old(self).spec_local_peer(),
    {
        if self.position_of(&peer_id).is_none() {
            let ghost before = self.peer_list();
            proof {
                use_type_invariant(&*self);
            }
            let mut peers: Vec<PeerKey> = Vec::new();
            std::mem::swap(&mut peers, &mut self.connected_peers);
            peers.push(peer_id);
            proof {
                assert(peers@.map_values(|p: PeerKey| p.spec_bytes()) =~= before.push(peer_id.spec_bytes()));
            }
            self.connected_peers = peers;
            proof {
                assert(self.peer_list() =~= before.push(peer_id.spec_bytes()));
                assert forall|y: Seq<u8>| #[trigger] self.peer_list().contains(y) == (before.contains(y) || y
                    == peer_id.spec_bytes()) by {
                    if before.contains(y) {
                        let k = choose|k: int| 0 <= k < before.len() && before[k] == y;
                        assert(self.peer_list()[k] == y);
                    }
                    if y == peer_id.spec_bytes() {
                        assert(self.peer_list()[before.len() as int] == y);
                    }
                }
                assert(self.peers() =~= before.to_set().insert(peer_id.spec_bytes()));
            }
        } else {
            proof {
                assert(old(self).peers().insert(peer_id.spec_bytes()) =~= old(self).peers());
            }
        }
    }

    /// Remove a peer from the connected set
    pub fn remove_peer(&mut self, peer_id: &PeerKey)
        ensures
            final(self).peers() == old(self).peers().remove(peer_id.spec_bytes()),
            final(self).spec_config() == old(self).spec_config(),
            final(self).spec_local_peer() == old(self).spec_local_peer(),
    {
        proof {
            use_type_invariant(&*self);
        }
        match self.position_of(peer_id) {
            Some(i) => {
                let ghost before = self.peer_list();
                let ghost peers_before = self.connected_peers@;
                let mut peers: Vec<PeerKey> = Vec::new();
                std::mem::swap(&mut peers, &mut self.connected_peers);
                let _removed = peers.remove(i);
                proof {
                    assert(peers@.map_values(|p: PeerKey| p.spec_bytes()) =~= before.remove(i as int));
                    assert(before.remove(i as int).no_duplicates()) by {
                        assert forall|a: int, b: int|
                            0 <= a < b < before.remove(i as int).len() implies before.remove(i as int)[a]
                            != before.remove(i as int)[b] by {
                            let aa = if a < i { a } else { a + 1 };
                            let bb = if b < i { b } else { b + 1 };
                            assert(before.remove(i as int)[a] == before[aa]);
                            assert(before.remove(i as int)[b] == before[bb]);
                        }
                    }
                }
                self.connected_peers = peers;
                proof {
                    assert(self.peer_list() =~= before.remove(i as int));
                    assert forall|x: Seq<u8>| #[trigger] self.peers().contains(x) == before.to_set().remove(
                        peer_id.spec_bytes(),
                    ).contains(x) by {
                        if x == peer_id.spec_bytes() {
                            if self.peer_list().contains(x) {
                                let k = choose|k: int| 0 <= k < self.peer_list().len() && self.peer_list()[k] == x;
                                if k < i {
                                    assert(before[k] == x);
                                } else {
                                    assert(before[k + 1] == x);
                                }
                            }
                        } else {
                            if before.contains(x) {
                                let k = choose|k: int| 0 <= k < before.len() && before[k] == x;
                                if k < i {
                                    assert(self.peer_list()[k] == x);
                                } else if k > i {
                                    assert(self.peer_list()[k - 1] == x);
                                }
                            }
                            if self.peer_list().contains(x) {
                                let k = choose|k: int| 0 <= k < self.peer_list().len() && self.peer_list()[k] == x;
                                if k < i {
                                    assert(before[k] == x);
                                } else {
                                    assert(before[k + 1] == x);
                                }
                            }
                        }
                    }
                    assert(self.peers() =~= before.to_set().remove(peer_id.spec_bytes()));
                }
            },
            None => {
                proof {
                    assert(old(self).peers().remove(peer_id.spec_bytes()) =~= old(self).peers());
                }
            },
        }
    }

    /// Simulate peer handshake (for testing): a compatible peer joins.
    pub fn simulate_handshake(&mut self, peer_id: PeerKey, handshake: HandshakeMessage)
        ensures
            final(self).peers() == if handshake_problem(old(self).spec_config(), handshake) is None {
                old(self).peers().insert(peer_id.spec_bytes())
            } else {
                old(self).peers()
            },
    {
        match self.validate_peer_handshake(&handshake) {
            Ok(()) => {
                self.add_peer(peer_id);
            },
            Err(_) => {},
        }
    }

    /// Handle incoming protocol messages: a compatible handshake connects
    /// the peer, an incompatible one is reported with the reason, other
    /// requests and data become events, and a proof response gives none.
    pub fn handle_message(&mut self, peer_id: PeerKey, message: ProtocolMessage) -> (event: Option<P2PEvent>)
        ensures
            final(self).spec_config() == old(self).spec_config(),
            match message {
                ProtocolMessage::Handshake(h) => match handshake_problem(old(self).spec_config(), h) {
                    None => final(self).peers() == old(self).peers().insert(peer_id.spec_bytes()) && event == Some(
                        P2PEvent::PeerConnected { peer_id, handshake: h },
                    ),
                    Some((kind, expected, received)) => final(self).peers() == old(self).peers() && (event matches Some(
                        P2PEvent::IncompatiblePeer { peer_id: p, reason },
                    ) && p == peer_id && exists|e: BlockchainError|
                        reports_mismatch(e, kind, expected, received) && reason@ == e.spec_message()),
                },
                ProtocolMessage::BlockBroadcast(block) => final(self).peers() == old(self).peers() && event == Some(
                    P2PEvent::BlockReceived { peer_id, block },
                ),
                ProtocolMessage::ChainSync { from_block } => final(self).peers() == old(self).peers() && event
                    == Some(P2PEvent::ChainSyncRequested { peer_id, from_block }),
                ProtocolMessage::ChainData { blocks } => final(self).peers() == old(self).peers() && event == Some(
                    P2PEvent::ChainDataReceived { peer_id, blocks },
                ),
                ProtocolMessage::ProofRequest { block_index, key } => final(self).peers() == old(self).peers()
                    && event == Some(P2PEvent::ProofRequested { peer_id, block_index, key }),
                ProtocolMessage::ProofResponse { .. } => final(self).peers() == old(self).peers() && event is None,
            },
    {
        match message {
            ProtocolMessage::Handshake(handshake) => {
                match self.validate_peer_handshake(&handshake) {
                    Ok(()) => {
                        let ghost p = peer_id;
                        let joining = peer_id.clone();
                        self.add_peer(joining);
                        Some(P2PEvent::PeerConnected { peer_id, handshake })
                    },
                    Err(e) => Some(P2PEvent::IncompatiblePeer { peer_id, reason: e.message() }),
                }
            },
            ProtocolMessage::BlockBroadcast(block) => Some(P2PEvent::BlockReceived { peer_id, block }),
            ProtocolMessage::ChainSync { from_block } => Some(P2PEvent::ChainSyncRequested { peer_id, from_block }),
            ProtocolMessage::ChainData { blocks } => Some(P2PEvent::ChainDataReceived { peer_id, blocks }),
            ProtocolMessage::ProofRequest { block_index, key } => Some(
                P2PEvent::ProofRequested { peer_id, block_index, key },
            ),
            ProtocolMessage::ProofResponse { proof: _ } => {
                // Proof responses would be handled by the requesting party
                None
            },
        }
    }

    /// Whether a bootnode's certificate admits it to this network at time
    /// `now`: an error when the certificate does not verify, `false` when
    /// it serves another network or chain, `true` otherwise.
    pub fn admit_bootnode_at(
        &self,
        cert: &BootnodeCertificate,
        trusted_authorities: &[NetworkAuthority],
        now: i64,
    ) -> (res: Result<bool>)
        ensures
            match certificate_check(*cert, trusted_authorities@, now) {
                Err(m) => res matches Err(BlockchainError::InvalidInput(x)) && x@ == m,
                Ok(()) => res == Ok::<bool, BlockchainError>(
                    cert.network_id@ == self.spec_config().network_id@ && cert.chain_id
                        == self.spec_config().chain_id,
                ),
            },
    {
        match cert.verify_at(trusted_authorities, now) {
            Err(e) => Err(e),
            Ok(()) => Ok(cert.network_id == self.network_config.network_id && cert.chain_id
                == self.network_config.chain_id),
        }
    }
}

impl Clone for PeerKey {
    /// A copy of the identity.
    fn clone(&self) -> (key: Self)
        ensures
            key.spec_bytes() == self.spec_bytes(),
    {
        proof {
            use_type_invariant(self);
        }
        let bytes = crate::mpt::node::copy_bytes(&self.bytes);
        PeerKey { bytes }
    }
}

/// Helper function to create default network configuration
pub fn default_network_config() -> (config: NetworkConfig)
    ensures
        config.network_id@ == "vc-mainnet"@,
        config.chain_id == 1,
        config.genesis_hash@ == ""@,
        config.protocol_version@ == "1.0.0"@,
{
    NetworkConfig {
        network_id: String::from_str("vc-mainnet"),
        chain_id: 1,
        genesis_hash: String::from_str(""),
        protocol_version: String::from_str("1.0.0"),
    }
}

/// Helper function to parse multiaddr from string
pub fn parse_multiaddr(addr_str: &str) -> (res: Result<libp2p::Multiaddr>)
    ensures
        match spec_multiaddr_parse(addr_str@) {
            Ok(()) => res is Ok,
            Err(e) => res matches Err(BlockchainError::InvalidInput(m)) && m@ == "Invalid multiaddr '"@ + addr_str@
                + "': "@ + e,
        },
{
    match multiaddr_parse(addr_str) {
        Ok(addr) => Ok(addr),
        Err(e) => {
            let mut m = String::from_str("Invalid multiaddr '");
            m.append(addr_str);
            m.append("': ");
            m.append(e.as_str());
            Err(BlockchainError::InvalidInput(m))
        },
    }
}

/// Helper function to format peer info for display
pub fn format_peer_info(peer_id: &PeerKey, handshake: &Option<HandshakeMessage>) -> (info: String)
    ensures
        info@ == peer_info_text(peer_id.spec_bytes(), *handshake),
{
    match handshake {
        Some(hs) => {
            let mut info = String::from_str("Peer ");
            info.append(peer_id.to_text().as_str());
            info.append(": Network '");
            info.append(hs.network_id.as_str());
            info.append("', Chain ID ");
            info.append(u64_to_string(hs.chain_id).as_str());
            info.append(", Version ");
            info.append(hs.protocol_version.as_str());
            info
        },
        None => {
            let mut info = String::from_str("Peer ");
            info.append(peer_id.to_text().as_str());
            info.append(": Handshake pending");
            info
        },
    }
}

} // verus!
