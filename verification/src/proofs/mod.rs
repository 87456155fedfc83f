//! Merkle proofs: the claim that a key holds a value in a block's data,
//! and their verification against a chain.

pub mod merkle;

pub use merkle::{MerkleProof, ProofVerifier};
