//! Blocks and the chain of blocks.

pub mod block;

pub mod chain;

pub use block::{Block, NetworkConfig};
pub use chain::{Blockchain, BlockchainStats};
