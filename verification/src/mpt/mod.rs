//! Merkle-Patricia trie: key utilities, node types, the trie itself, and
//! the listing of its entries.

pub mod hash;
pub mod listing;
pub mod node;
pub mod trie;

pub use hash::{KeyUtils, PathUtils};
pub use node::{CompactEncoding, MPTNode};
pub use trie::MerklePatriciaTrie;
