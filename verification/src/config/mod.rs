//! Node configuration, network authorities and bootnode certificates.

pub mod authority;
pub mod certificate;
pub mod node;

pub use authority::{AuthorityKey, NetworkAuthority};
pub use certificate::BootnodeCertificate;
pub use node::{NodeConfig, NodeType};
