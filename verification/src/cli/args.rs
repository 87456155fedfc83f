//! The commands of the command line and their arguments.

use vstd::prelude::*;

verus! {

/// Main CLI structure
pub struct CliArgs {
    pub command: Commands,
}

/// Available CLI commands for VCBC node management
pub enum Commands {
    /// Initialize a new blockchain from scratch
    InitChain {
        /// Network ID (e.g., vc-mainnet, vc-testnet)
        network_id: String,
        /// Chain ID for network isolation
        chain_id: u64,
        /// HTTP API port
        http_port: u16,
        /// P2P network port
        p2p_port: u16,
    },
    /// Initialize a node for an existing blockchain network
    InitNode {
        /// Bootstrap node URL (HTTP endpoint)
        bootstrap_url: String,
        /// HTTP API port for this node
        http_port: u16,
        /// P2P network port for this node
        p2p_port: u16,
    },
    /// Start a bootnode for the blockchain network
    StartBootnode {
        /// Path to configuration file
        config: String,
    },
    /// Start a regular node in the blockchain network
    StartNode {
        /// Path to configuration file
        config: String,
    },
    /// Initialize a network authority for bootnode certificates
    InitAuthority {
        /// Authority name/identifier
        name: String,
        /// Output path for authority keys
        output: String,
    },
    /// Register and certify a bootnode
    RegisterBootnode {
        /// Bootnode identifier
        node_id: String,
        /// Authority key file
        authority: String,
        /// Bootnode configuration file
        config: String,
        /// Certificate output path
        output: String,
    },
}

} // verus!
