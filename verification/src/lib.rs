//! VCBC: a blockchain whose blocks carry Merkle-Patricia tries, with
//! proof-of-work mining, chain validation, Merkle proofs, node
//! configuration, bootnode certificates and peer-to-peer messaging.

pub mod error;
pub mod digest;
pub mod text;
pub mod mpt;
pub mod clock;
pub mod crypto;
pub mod config;
pub mod network;
pub mod storage;
pub mod cli;
pub mod blockchain;
pub mod proofs;

pub use blockchain::{Block, Blockchain, NetworkConfig};
pub use error::{BlockchainError, Result};
pub use mpt::MerklePatriciaTrie;
pub use proofs::MerkleProof;
pub use config::{AuthorityKey, BootnodeCertificate, NetworkAuthority, NodeConfig, NodeType};
