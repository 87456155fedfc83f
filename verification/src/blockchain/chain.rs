//! The chain of blocks: adding mined blocks, validation of the whole chain,
//! queries over the blocks' data, and network compatibility.

use vstd::prelude::*;
use vstd::string::*;
use crate::blockchain::block::{Block, NetworkConfig, genesis_from, zero_prefixed, has_zero_prefix, block_hash_of};
use crate::error::{BlockchainError, Result};
use crate::mpt::node::opt_view;
use crate::mpt::trie::MerklePatriciaTrie;
use crate::text::{bytes_eq, dec_chars, u64_to_string, usize_to_string};

verus! {

/// Main blockchain structure
#[derive(Clone, Debug)]
pub struct Blockchain {
    /// Chain of blocks
    pub chain: Vec<Block>,
    /// Mining difficulty
    pub difficulty: usize,
    /// Network configuration for identity and isolation
    pub network_config: NetworkConfig,
}

/// Blockchain statistics
#[derive(Debug, Clone)]
pub struct BlockchainStats {
    /// Total number of blocks
    pub total_blocks: u64,
    /// Latest block index
    pub latest_index: u64,
    /// Current mining difficulty
    pub difficulty: usize,
    /// Whether the chain is valid
    pub is_valid: bool,
}

/// Every block carries the hash that its contents call for; every block
/// after the first has the proof of work of the difficulty and names the
/// hash of the block before it.
pub open spec fn chain_valid(chain: Seq<Block>, difficulty: usize) -> bool {
    forall|i: int|
        0 <= i < chain.len() ==> {
            &&& (#[trigger] chain[i]).hash@ == chain[i].spec_hash()
            &&& i > 0 ==> zero_prefixed(chain[i].hash@, difficulty as nat)
            &&& i > 0 ==> chain[i].previous_hash@ == chain[i - 1].hash@
        }
}

/// Two configurations name the same network: the same identifier and the
/// same genesis hash.
pub open spec fn same_network(a: NetworkConfig, b: NetworkConfig) -> bool {
    a.network_id@ == b.network_id@ && a.genesis_hash@ == b.genesis_hash@
}

/// Two configurations are compatible: the same network and the same
/// protocol version.
pub open spec fn compatible(a: NetworkConfig, b: NetworkConfig) -> bool {
    same_network(a, b) && a.protocol_version@ == b.protocol_version@
}

/// A chain that accepts another's configuration is on the same network as
/// that chain, a chain on another network is refused, and every chain
/// accepts its own configuration; being on the same network goes both ways.
pub proof fn lemma_compatible_chains_share_network(a: Blockchain, b: Blockchain)
    ensures
        compatible(a.network_config, b.network_config) ==> same_network(a.network_config, b.network_config),
        !same_network(a.network_config, b.network_config) ==> !compatible(a.network_config, b.network_config),
        compatible(a.network_config, a.network_config),
        same_network(a.network_config, b.network_config) == same_network(b.network_config, a.network_config),
{
}

/// A valid chain is linked: every block after the first names the hash
/// of the block before it, carries the hash of its own contents, and has
/// the proof of work of the difficulty. So dropping or reordering blocks of
/// a chain whose link breaks leaves it invalid.
pub proof fn lemma_valid_chain_is_linked(chain: Seq<Block>, difficulty: usize)
    requires
        chain_valid(chain, difficulty),
    ensures
        forall|i: int| 0 < i < chain.len() ==> (#[trigger] chain[i]).previous_hash@ == chain[i - 1].hash@,
        forall|i: int|
            0 <= i < chain.len() ==> (#[trigger] chain[i]).hash@ == block_hash_of(
                chain[i].index,
                chain[i].timestamp,
                chain[i].data,
                chain[i].previous_hash@,
                chain[i].nonce,
            ),
        forall|i: int| 0 < i < chain.len() ==> zero_prefixed((#[trigger] chain[i]).hash@, difficulty as nat),
{
    assert forall|i: int| 0 < i < chain.len() implies (#[trigger] chain[i]).previous_hash@ == chain[i - 1].hash@ by {
        assert(chain[i].hash@ == chain[i].spec_hash());
    }
}

/// The text of the statistics.
pub open spec fn stats_text(s: BlockchainStats) -> Seq<char> {
    "Blockchain Statistics:\nTotal Blocks: "@ + dec_chars(s.total_blocks as nat) + "\nLatest Index: "@ + dec_chars(
        s.latest_index as nat,
    ) + "\nDifficulty: "@ + dec_chars(s.difficulty as nat) + "\nChain Valid: "@ + if s.is_valid {
        "✅ Yes"@
    } else {
        "❌ No"@
    }
}

/// A copy of a string.
fn copy_string(s: &String) -> (c: String)
    ensures
        c@ == s@,
{
    s.clone()
}

impl Blockchain {
    /// Create a new blockchain with given difficulty and network configuration
    pub fn new(difficulty: usize, network_config: NetworkConfig) -> (bc: Self)
        ensures
            bc.chain@.len() == 1,
            exists|t: i64| genesis_from(bc.chain@[0], network_config, t),
            bc.difficulty == difficulty,
            bc.network_config.network_id@ == network_config.network_id@,
            bc.network_config.chain_id == network_config.chain_id,
            bc.network_config.protocol_version@ == network_config.protocol_version@,
            bc.network_config.genesis_hash@ == bc.chain@[0].hash@,
            chain_valid(bc.chain@, bc.difficulty),
    {
        let ghost config = network_config;
        let mut network_config = network_config;
        let for_genesis = NetworkConfig {
            network_id: copy_string(&network_config.network_id),
            chain_id: network_config.chain_id,
            genesis_hash: copy_string(&network_config.genesis_hash),
            protocol_version: copy_string(&network_config.protocol_version),
        };
        let genesis_block = Block::genesis_with_config(for_genesis);
        let ghost g = genesis_block;
        network_config.genesis_hash = copy_string(&genesis_block.hash);
        let chain = vec![genesis_block];
        let bc = Self { chain, difficulty, network_config };
        proof {
            let t = choose|t: i64| genesis_from(g, for_genesis, t);
            assert(bc.chain@[0] == g);
            assert(genesis_from(bc.chain@[0], config, t));
            assert(chain_valid(bc.chain@, bc.difficulty));
        }
        bc
    }

    /// Create a new blockchain with default network configuration
    pub fn new_default(difficulty: usize) -> (bc: Self)
        ensures
            bc.chain@.len() == 1,
            exists|c: NetworkConfig, t: i64| Block::legacy_config(c) && genesis_from(bc.chain@[0], c, t),
            bc.difficulty == difficulty,
            bc.network_config.network_id@ == "vc-mainnet"@,
            bc.network_config.chain_id == 1,
            bc.network_config.protocol_version@ == "1.0.0"@,
            bc.network_config.genesis_hash@ == bc.chain@[0].hash@,
            chain_valid(bc.chain@, bc.difficulty),
    {
        let network_config = NetworkConfig {
            network_id: String::from_str("vc-mainnet"),
            chain_id: 1,
            // Will be set by genesis creation
            genesis_hash: String::from_str(""),
            protocol_version: String::from_str("1.0.0"),
        };
        let ghost c = network_config;
        let bc = Self::new(difficulty, network_config);
        proof {
            let t = choose|t: i64| genesis_from(bc.chain@[0], c, t);
            assert(Block::legacy_config(c) && genesis_from(bc.chain@[0], c, t));
        }
        bc
    }

    /// Create a blockchain with genesis block using network configuration
    pub fn genesis(network_config: NetworkConfig) -> (bc: Self)
        ensures
            bc.chain@.len() == 1,
            exists|t: i64| genesis_from(bc.chain@[0], network_config, t),
            bc.difficulty == 0,
            bc.network_config.network_id@ == network_config.network_id@,
            bc.network_config.chain_id == network_config.chain_id,
            bc.network_config.protocol_version@ == network_config.protocol_version@,
            bc.network_config.genesis_hash@ == bc.chain@[0].hash@,
            chain_valid(bc.chain@, bc.difficulty),
    {
        Self::new(0, network_config)
    }

    /// Add a new block with MPT data: a block after the latest one, mined
    /// at the chain's difficulty. A valid chain stays valid when the
    /// mining found a proof of work.
    pub fn add_block(&mut self, data: MerklePatriciaTrie)
        requires
            old(self).chain@.len() > 0,
        ensures
            final(self).chain@.len() == old(self).chain@.len() + 1,
            final(self).chain@.subrange(0, old(self).chain@.len() as int) == old(self).chain@,
            final(self).difficulty == old(self).difficulty,
            final(self).network_config == old(self).network_config,
            ({
                let b = final(self).chain@.last();
                &&& b.index == old(self).chain@.len()
                &&& b.data == data
                &&& b.previous_hash@ == old(self).chain@.last().hash@
                &&& b.hash@ == b.spec_hash()
                &&& zero_prefixed(b.hash@, old(self).difficulty as nat) || b.nonce == u64::MAX
            }),
            chain_valid(old(self).chain@, old(self).difficulty) && zero_prefixed(
                final(self).chain@.last().hash@,
                old(self).difficulty as nat,
            ) ==> chain_valid(final(self).chain@, final(self).difficulty),
    {
        let previous_hash = copy_string(&self.get_latest_block().hash);
        let index = self.chain.len() as u64;
        let mut new_block = Block::new(index, data, previous_hash);
        new_block.mine_block(self.difficulty);
        let ghost b = new_block;
        self.chain.push(new_block);
        proof {
            let c = final(self).chain@;
            let o = old(self).chain@;
            assert(c.subrange(0, o.len() as int) =~= o);
            if chain_valid(o, self.difficulty) && zero_prefixed(b.hash@, self.difficulty as nat) {
                assert forall|i: int| 0 <= i < c.len() implies {
                    &&& (#[trigger] c[i]).hash@ == c[i].spec_hash()
                    &&& i > 0 ==> zero_prefixed(c[i].hash@, self.difficulty as nat)
                    &&& i > 0 ==> c[i].previous_hash@ == c[i - 1].hash@
                } by {
                    if i < o.len() {
                        assert(c[i] == o[i]);
                        if i > 0 {
                            assert(c[i - 1] == o[i - 1]);
                        }
                    } else {
                        assert(c[i] == b);
                        assert(c[i - 1] == o.last());
                    }
                }
            }
        }
    }

    /// Add a block with key-value data
    pub fn add_block_with_key_value(&mut self, key: &str, value: Vec<u8>)
        requires
            old(self).chain@.len() > 0,
        ensures
            final(self).chain@.len() == old(self).chain@.len() + 1,
            final(self).chain@.subrange(0, old(self).chain@.len() as int) == old(self).chain@,
            final(self).chain@.last().data@ == Map::<Seq<char>, Seq<u8>>::empty().insert(key@, value@),
            final(self).chain@.last().index == old(self).chain@.len(),
            final(self).chain@.last().previous_hash@ == old(self).chain@.last().hash@,
            chain_valid(old(self).chain@, old(self).difficulty) && zero_prefixed(
                final(self).chain@.last().hash@,
                old(self).difficulty as nat,
            ) ==> chain_valid(final(self).chain@, final(self).difficulty),
    {
        let mut mpt = MerklePatriciaTrie::new();
        let _ = mpt.insert(key, value);
        self.add_block(mpt);
    }

    /// Get a block by index
    pub fn get_block(&self, index: usize) -> (block: Option<&Block>)
        ensures
            index < self.chain@.len() ==> block == Some(&self.chain@[index as int]),
            index >= self.chain@.len() ==> block is None,
    {
        if index < self.chain.len() {
            Some(&self.chain[index])
        } else {
            None
        }
    }

    /// Get the latest block
    pub fn get_latest_block(&self) -> (block: &Block)
        requires
            self.chain@.len() > 0,
        ensures
            *block == self.chain@.last(),
    {
        &self.chain[self.chain.len() - 1]
    }

    /// Validate the entire blockchain
    pub fn is_chain_valid(&self) -> (valid: bool)
        ensures
            valid == chain_valid(self.chain@, self.difficulty),
            valid ==> forall|i: int|
                0 < i < self.chain@.len() ==> (#[trigger] self.chain@[i]).previous_hash@ == self.chain@[i - 1].hash@,
            valid ==> forall|i: int|
                0 <= i < self.chain@.len() ==> (#[trigger] self.chain@[i]).hash@ == block_hash_of(
                    self.chain@[i].index,
                    self.chain@[i].timestamp,
                    self.chain@[i].data,
                    self.chain@[i].previous_hash@,
                    self.chain@[i].nonce,
                ),
            valid ==> forall|i: int|
                0 < i < self.chain@.len() ==> zero_prefixed(
                    (#[trigger] self.chain@[i]).hash@,
                    self.difficulty as nat,
                ),
            (exists|i: int|
                0 < i < self.chain@.len() && (#[trigger] self.chain@[i]).previous_hash@ != self.chain@[i
                    - 1].hash@) ==> !valid,
    {
        let mut i: usize = 0;
        while i < self.chain.len()
            invariant
                i <= self.chain@.len(),
                forall|j: int|
                    0 <= j < i ==> {
                        &&& (#[trigger] self.chain@[j]).hash@ == self.chain@[j].spec_hash()
                        &&& j > 0 ==> zero_prefixed(self.chain@[j].hash@, self.difficulty as nat)
                        &&& j > 0 ==> self.chain@[j].previous_hash@ == self.chain@[j - 1].hash@
                    },
            decreases self.chain@.len() - i,
        {
            let block = &self.chain[i];
            // Validate block structure
            let expected = block.calculate_hash();
            if !(block.hash == expected) {
                return false;
            }
            // Validate proof-of-work (skip for genesis block)
            if i > 0 && !has_zero_prefix(&block.hash, self.difficulty) {
                return false;
            }
            // Validate chain linkage (skip genesis block)
            if i > 0 {
                let previous_block = &self.chain[i - 1];
                if !(block.previous_hash == previous_block.hash) {
                    return false;
                }
            }
            i = i + 1;
        }
        true
    }

    /// Verify data integrity for a specific block and key
    pub fn verify_data_integrity(&self, block_index: usize, key: &str, expected_value: &[u8]) -> (ok: bool)
        ensures
            ok == (block_index < self.chain@.len() && self.chain@[block_index as int].data@.contains_key(key@)
                && self.chain@[block_index as int].data@[key@] == expected_value@),
    {
        match self.get_block(block_index) {
            Some(block) => match block.data.get(key) {
                Some(stored_value) => bytes_eq(stored_value.as_slice(), expected_value),
                None => false,
            },
            None => false,
        }
    }

    /// Get data from a specific block
    pub fn get_data_from_block(&self, block_index: usize, key: &str) -> (value: Option<Vec<u8>>)
        ensures
            opt_view(value) == if block_index < self.chain@.len() && self.chain@[block_index as int].data@.contains_key(
                key@,
            ) {
                Some(self.chain@[block_index as int].data@[key@])
            } else {
                None
            },
    {
        match self.get_block(block_index) {
            Some(block) => block.data.get(key),
            None => None,
        }
    }

    /// Get blockchain statistics
    pub fn get_stats(&self) -> (stats: BlockchainStats)
        ensures
            stats.total_blocks == self.chain@.len(),
            stats.latest_index == if self.chain@.len() == 0 { 0 } else { self.chain@.len() - 1 },
            stats.difficulty == self.difficulty,
            stats.is_valid == chain_valid(self.chain@, self.difficulty),
    {
        let len = self.chain.len();
        BlockchainStats {
            total_blocks: len as u64,
            latest_index: if len == 0 { 0 } else { (len - 1) as u64 },
            difficulty: self.difficulty,
            is_valid: self.is_chain_valid(),
        }
    }

    /// Get all block hashes
    pub fn get_all_block_hashes(&self) -> (hashes: Vec<String>)
        ensures
            hashes@.len() == self.chain@.len(),
            forall|i: int| 0 <= i < hashes@.len() ==> #[trigger] hashes@[i]@ == self.chain@[i].hash@,
    {
        let mut hashes: Vec<String> = Vec::new();
        let mut i: usize = 0;
        while i < self.chain.len()
            invariant
                i <= self.chain@.len(),
                hashes@.len() == i,
                forall|j: int| 0 <= j < i ==> #[trigger] hashes@[j]@ == self.chain@[j].hash@,
            decreases self.chain@.len() - i,
        {
            hashes.push(copy_string(&self.chain[i].hash));
            i = i + 1;
        }
        hashes
    }

    /// Find blocks containing specific key: their indices, in increasing
    /// order.
    pub fn find_blocks_with_key(&self, key: &str) -> (indices: Vec<usize>)
        ensures
            forall|i: int|
                0 <= i < indices@.len() ==> #[trigger] indices@[i] < self.chain@.len()
                    && self.chain@[indices@[i] as int].data@.contains_key(key@),
            forall|i: int, j: int| 0 <= i < j < indices@.len() ==> indices@[i] < indices@[j],
            forall|b: int|
                0 <= b < self.chain@.len() && (#[trigger] self.chain@[b]).data@.contains_key(key@) ==> exists|i: int|
                    0 <= i < indices@.len() && indices@[i] == b,
    {
        let mut indices: Vec<usize> = Vec::new();
        let mut b: usize = 0;
        while b < self.chain.len()
            invariant
                b <= self.chain@.len(),
                forall|i: int|
                    0 <= i < indices@.len() ==> #[trigger] indices@[i] < b && self.chain@[indices@[i] as int].data@.contains_key(
                        key@,
                    ),
                forall|i: int, j: int| 0 <= i < j < indices@.len() ==> indices@[i] < indices@[j],
                forall|c: int|
                    0 <= c < b && (#[trigger] self.chain@[c]).data@.contains_key(key@) ==> exists|i: int|
                        0 <= i < indices@.len() && indices@[i] == c,
            decreases self.chain@.len() - b,
        {
            match self.chain[b].data.get(key) {
                Some(_) => {
                    let ghost before = indices@;
                    indices.push(b);
                    proof {
                        let n = indices@.len() - 1;
                        assert(indices@[n] == b);
                        assert forall|c: int|
                            0 <= c < b + 1 && (#[trigger] self.chain@[c]).data@.contains_key(key@) implies exists|i: int|
                            0 <= i < indices@.len() && indices@[i] == c by {
                            if c < b {
                                let i = choose|i: int| 0 <= i < before.len() && before[i] == c;
                                assert(indices@[i] == before[i]);
                            }
                        }
                    }
                },
                None => {},
            }
            b = b + 1;
        }
        indices
    }

    /// Validate network compatibility with another blockchain
    pub fn validate_network_compatibility(&self, other_config: &NetworkConfig) -> (res: Result<()>)
        ensures
            self.network_config.network_id@ != other_config.network_id@ ==> (res matches Err(
                BlockchainError::NetworkMismatch { expected, received },
            ) && expected@ == self.network_config.network_id@ && received@ == other_config.network_id@),
            self.network_config.network_id@ == other_config.network_id@ && self.network_config.genesis_hash@
                != other_config.genesis_hash@ ==> (res matches Err(
                BlockchainError::GenesisMismatch { expected, received },
            ) && expected@ == self.network_config.genesis_hash@ && received@ == other_config.genesis_hash@),
            self.network_config.network_id@ == other_config.network_id@ && self.network_config.genesis_hash@
                == other_config.genesis_hash@ && self.network_config.protocol_version@
                != other_config.protocol_version@ ==> (res matches Err(
                BlockchainError::ProtocolMismatch { expected, received },
            ) && expected@ == self.network_config.protocol_version@ && received@
                == other_config.protocol_version@),
            res is Ok <==> compatible(self.network_config, *other_config),
    {
        if !(self.network_config.network_id == other_config.network_id) {
            return Err(
                BlockchainError::NetworkMismatch {
                    expected: copy_string(&self.network_config.network_id),
                    received: copy_string(&other_config.network_id),
                },
            );
        }
        if !(self.network_config.genesis_hash == other_config.genesis_hash) {
            return Err(
                BlockchainError::GenesisMismatch {
                    expected: copy_string(&self.network_config.genesis_hash),
                    received: copy_string(&other_config.genesis_hash),
                },
            );
        }
        if !(self.network_config.protocol_version == other_config.protocol_version) {
            return Err(
                BlockchainError::ProtocolMismatch {
                    expected: copy_string(&self.network_config.protocol_version),
                    received: copy_string(&other_config.protocol_version),
                },
            );
        }
        Ok(())
    }

    /// Check if two blockchains are on the same network
    pub fn is_same_network(&self, other: &Blockchain) -> (same: bool)
        ensures
            same == same_network(self.network_config, other.network_config),
    {
        self.network_config.network_id == other.network_config.network_id
            && self.network_config.genesis_hash == other.network_config.genesis_hash
    }
}

impl BlockchainStats {
    /// Format statistics as a string
    pub fn format(&self) -> (text: String)
        ensures
            text@ == stats_text(*self),
    {
        let mut text = String::from_str("Blockchain Statistics:\nTotal Blocks: ");
        text.append(u64_to_string(self.total_blocks).as_str());
        text.append("\nLatest Index: ");
        text.append(u64_to_string(self.latest_index).as_str());
        text.append("\nDifficulty: ");
        text.append(usize_to_string(self.difficulty).as_str());
        text.append("\nChain Valid: ");
        if self.is_valid {
            text.append("✅ Yes");
        } else {
            text.append("❌ No");
        }
        text
    }
}

} // verus!
