//! Provides proof generation and verification for MPT data.

use vstd::prelude::*;
use vstd::string::*;
use crate::blockchain::{Block, Blockchain};
use crate::clock::now_rfc3339;
use crate::digest::{hex_encode, spec_hex};
use crate::error::{BlockchainError, Result};
use crate::mpt::trie::spec_root_hash;
use crate::text::{bytes_eq, dec_chars, u64_to_string, usize_to_string, utf8_lossy, spec_utf8_lossy};

verus! {

/// Merkle proof for MPT data verification
#[derive(Debug, Clone)]
pub struct MerkleProof {
    /// The key being proven
    pub key: String,
    /// The value associated with the key
    pub value: Vec<u8>,
    /// Block index containing the MPT
    pub block_index: u64,
    /// MPT root hash for verification
    pub mpt_root_hash: Vec<u8>,
    /// Block hash for additional verification
    pub block_hash: String,
    /// Timestamp when proof was generated
    pub timestamp: String,
}

/// Proof verification utilities
pub struct ProofVerifier;

/// The block that a proof names, if the chain has it.
pub open spec fn named_block(p: MerkleProof, bc: Blockchain) -> Option<Block> {
    let i = (p.block_index as usize) as int;
    if i < bc.chain@.len() {
        Some(bc.chain@[i])
    } else {
        None
    }
}

/// The named block exists.
pub open spec fn block_exists(p: MerkleProof, bc: Blockchain) -> bool {
    named_block(p, bc) is Some
}

/// The named block has the proof's block hash and MPT root hash.
pub open spec fn root_matches(p: MerkleProof, bc: Blockchain) -> bool {
    match named_block(p, bc) {
        Some(b) => b.hash@ == p.block_hash@ && spec_root_hash(b.data.spec_root()) == p.mpt_root_hash@,
        None => false,
    }
}

/// The named block stores the proof's value under its key.
pub open spec fn key_value_matches(p: MerkleProof, bc: Blockchain) -> bool {
    match named_block(p, bc) {
        Some(b) => b.data@.contains_key(p.key@) && b.data@[p.key@] == p.value@,
        None => false,
    }
}

/// The proof holds in the chain.
pub open spec fn proof_holds(p: MerkleProof, bc: Blockchain) -> bool {
    block_exists(p, bc) && root_matches(p, bc) && key_value_matches(p, bc)
}

/// The message of the error that verification against a chain gives for a
/// proof that does not hold there.
pub open spec fn proof_error_text(p: MerkleProof, bc: Blockchain) -> Seq<char> {
    if !block_exists(p, bc) {
        "Block "@ + dec_chars(p.block_index as nat) + " does not exist in blockchain"@
    } else if !root_matches(p, bc) {
        "MPT root hash mismatch for block "@ + dec_chars(p.block_index as nat)
    } else {
        "Key-value mismatch for key '"@ + p.key@ + "' in block "@ + dec_chars(p.block_index as nat)
    }
}

/// The text of a proof.
pub open spec fn proof_text(p: MerkleProof) -> Seq<char> {
    "Merkle Proof:\nKey: "@ + p.key@ + "\nValue: "@ + spec_utf8_lossy(p.value@) + " ("@ + dec_chars(p.value@.len())
        + " bytes)\nBlock Index: "@ + dec_chars(p.block_index as nat) + "\nBlock Hash: "@ + p.block_hash@
        + "\nMPT Root: "@ + spec_hex(p.mpt_root_hash@) + "\nTimestamp: "@ + p.timestamp@
}

/// A proof made from the data of a block of a chain holds in that chain:
/// its key, the value stored under it, the block's index and hash, and the
/// root hash of the block's data.
pub proof fn lemma_proof_of_block_holds(p: MerkleProof, bc: Blockchain, i: int)
    requires
        0 <= i < bc.chain@.len(),
        p.block_index as usize == i,
        bc.chain@[i].data@.contains_key(p.key@),
        p.value@ == bc.chain@[i].data@[p.key@],
        p.block_hash@ == bc.chain@[i].hash@,
        p.mpt_root_hash@ == spec_root_hash(bc.chain@[i].data.spec_root()),
    ensures
        proof_holds(p, bc),
{
}

/// Tampering is detected: when a proof holds in a chain, a proof for the
/// same key and block that claims another value, another block hash or
/// another root hash does not hold there.
pub proof fn lemma_tampered_proof_fails(p: MerkleProof, q: MerkleProof, bc: Blockchain)
    requires
        proof_holds(p, bc),
        q.key@ == p.key@,
        q.block_index == p.block_index,
        q.value@ != p.value@ || q.block_hash@ != p.block_hash@ || q.mpt_root_hash@ != p.mpt_root_hash@,
    ensures
        !proof_holds(q, bc),
{
}

impl MerkleProof {
    /// Create a new Merkle proof
    pub fn new(key: String, value: Vec<u8>, block_index: u64, mpt_root_hash: Vec<u8>, block_hash: String) -> (proof:
        Self)
        ensures
            proof.key == key,
            proof.value == value,
            proof.block_index == block_index,
            proof.mpt_root_hash == mpt_root_hash,
            proof.block_hash == block_hash,
            proof.timestamp@.len() > 0,
    {
        let timestamp = now_rfc3339();
        MerkleProof { key, value, block_index, mpt_root_hash, block_hash, timestamp }
    }

    /// Verify the proof against a blockchain
    pub fn verify(&self, blockchain: &Blockchain) -> (valid: bool)
        ensures
            valid == proof_holds(*self, *blockchain),
    {
        self.verify_block_exists(blockchain) && self.verify_mpt_root(blockchain) && self.verify_key_value(
            blockchain,
        )
    }

    /// Verify against a known MPT root hash
    pub fn verify_against_root(&self, expected_root: &[u8]) -> (valid: bool)
        ensures
            valid == (self.mpt_root_hash@ == expected_root@),
    {
        bytes_eq(self.mpt_root_hash.as_slice(), expected_root)
    }

    /// Get the proof data as a formatted string
    pub fn format(&self) -> (text: String)
        ensures
            text@ == proof_text(*self),
    {
        let mut text = String::from_str("Merkle Proof:\nKey: ");
        text.append(self.key.as_str());
        text.append("\nValue: ");
        text.append(utf8_lossy(self.value.as_slice()).as_str());
        text.append(" (");
        text.append(usize_to_string(self.value.len()).as_str());
        text.append(" bytes)\nBlock Index: ");
        text.append(u64_to_string(self.block_index).as_str());
        text.append("\nBlock Hash: ");
        text.append(self.block_hash.as_str());
        text.append("\nMPT Root: ");
        text.append(hex_encode(self.mpt_root_hash.as_slice()).as_str());
        text.append("\nTimestamp: ");
        text.append(self.timestamp.as_str());
        text
    }

    fn verify_block_exists(&self, blockchain: &Blockchain) -> (exists: bool)
        ensures
            exists == block_exists(*self, *blockchain),
    {
        blockchain.get_block(self.block_index as usize).is_some()
    }

    fn verify_mpt_root(&self, blockchain: &Blockchain) -> (matches: bool)
        ensures
            matches == root_matches(*self, *blockchain),
    {
        match blockchain.get_block(self.block_index as usize) {
            Some(block) => {
                if block.hash == self.block_hash {
                    let expected_root = block.data.root_hash();
                    bytes_eq(expected_root.as_slice(), self.mpt_root_hash.as_slice())
                } else {
                    false
                }
            },
            None => false,
        }
    }

    fn verify_key_value(&self, blockchain: &Blockchain) -> (matches: bool)
        ensures
            matches == key_value_matches(*self, *blockchain),
    {
        match blockchain.get_block(self.block_index as usize) {
            Some(block) => match block.data.get(self.key.as_str()) {
                Some(stored_value) => bytes_eq(stored_value.as_slice(), self.value.as_slice()),
                None => false,
            },
            None => false,
        }
    }
}

impl ProofVerifier {
    /// Verify a proof against a blockchain
    pub fn verify_proof(proof: &MerkleProof, blockchain: &Blockchain) -> (res: Result<bool>)
        ensures
            proof_holds(*proof, *blockchain) ==> res == Ok::<bool, BlockchainError>(true),
            !proof_holds(*proof, *blockchain) ==> (res matches Err(BlockchainError::ProofError(m)) && m@
                == proof_error_text(*proof, *blockchain)),
    {
        if !proof.verify_block_exists(blockchain) {
            let mut m = String::from_str("Block ");
            m.append(u64_to_string(proof.block_index).as_str());
            m.append(" does not exist in blockchain");
            return Err(BlockchainError::ProofError(m));
        }
        if !proof.verify_mpt_root(blockchain) {
            let mut m = String::from_str("MPT root hash mismatch for block ");
            m.append(u64_to_string(proof.block_index).as_str());
            return Err(BlockchainError::ProofError(m));
        }
        if !proof.verify_key_value(blockchain) {
            let mut m = String::from_str("Key-value mismatch for key '");
            m.append(proof.key.as_str());
            m.append("' in block ");
            m.append(u64_to_string(proof.block_index).as_str());
            return Err(BlockchainError::ProofError(m));
        }
        Ok(true)
    }

    /// Verify a proof against a root hash only
    pub fn verify_against_root(proof: &MerkleProof, expected_root: &[u8]) -> (valid: bool)
        ensures
            valid == (proof.mpt_root_hash@ == expected_root@),
    {
        proof.verify_against_root(expected_root)
    }

    /// Batch verify multiple proofs: `true` for each when all hold, else the
    /// error of the first that does not.
    pub fn verify_batch(proofs: &[MerkleProof], blockchain: &Blockchain) -> (res: Result<Vec<bool>>)
        ensures
            (forall|i: int| 0 <= i < proofs@.len() ==> proof_holds(#[trigger] proofs@[i], *blockchain)) ==> (res matches Ok(
                v,
            ) && v@ == Seq::new(proofs@.len(), |i: int| true)),
            forall|f: int|
                0 <= f < proofs@.len() && !proof_holds(#[trigger] proofs@[f], *blockchain) && (forall|i: int|
                    0 <= i < f ==> proof_holds(#[trigger] proofs@[i], *blockchain)) ==> (res matches Err(
                    BlockchainError::ProofError(m),
                ) && m@ == proof_error_text(proofs@[f], *blockchain)),
    {
        let mut results: Vec<bool> = Vec::new();
        let mut i: usize = 0;
        while i < proofs.len()
            invariant
                i <= proofs@.len(),
                results@ == Seq::new(i as nat, |j: int| true),
                forall|j: int| 0 <= j < i ==> proof_holds(#[trigger] proofs@[j], *blockchain),
            decreases proofs@.len() - i,
        {
            let result = Self::verify_proof(&proofs[i], blockchain);
            match result {
                Ok(r) => {
                    results.push(r);
                    assert(results@ =~= Seq::new((i + 1) as nat, |j: int| true));
                },
                Err(e) => {
                    proof {
                        assert forall|f: int|
                            0 <= f < proofs@.len() && !proof_holds(#[trigger] proofs@[f], *blockchain) && (forall|k: int|
                                0 <= k < f ==> proof_holds(#[trigger] proofs@[k], *blockchain)) implies f == i by {
                            if f < i {
                                assert(proof_holds(proofs@[f], *blockchain));
                            } else if f > i {
                                assert(proof_holds(proofs@[i as int], *blockchain));
                            }
                        }
                    }
                    return Err(e);
                },
            }
            i = i + 1;
        }
        Ok(results)
    }
}

} // verus!
