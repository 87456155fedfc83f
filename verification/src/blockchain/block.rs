//! Blocks: their hash, proof-of-work mining and validation, the genesis
//! block, and the network configuration that identifies a chain.

use vstd::prelude::*;
use vstd::utf8::*;
use vstd::string::*;
use vstd::std_specs::cmp::PartialEqSpecImpl;
use crate::clock::{now_unix_seconds, utc_text, spec_utc_text};
use crate::digest::{sha256, spec_sha256, hex_encode, spec_hex};
use crate::mpt::trie::{MerklePatriciaTrie, spec_root_hash, lemma_listing_unique};
use crate::text::{dec_bytes, dec_chars, signed_dec_bytes, signed_dec_chars, push_decimal, push_signed_decimal,
    u64_to_string, i64_to_string, usize_to_string, utf8_lossy, spec_utf8_lossy};

verus! {

/// Network configuration for blockchain identity and isolation
#[derive(Clone, Debug, Eq)]
pub struct NetworkConfig {
    /// Unique network identifier (e.g., "vc-mainnet", "vc-testnet", "my-project-v1")
    pub network_id: String,
    /// Numeric chain identifier for additional isolation
    pub chain_id: u64,
    /// Genesis block hash for network validation
    pub genesis_hash: String,
    /// Protocol version for compatibility checking
    pub protocol_version: String,
}

impl PartialEq for NetworkConfig {
    fn eq(&self, other: &Self) -> (r: bool) {
        self.network_id == other.network_id && self.chain_id == other.chain_id && self.genesis_hash
            == other.genesis_hash && self.protocol_version == other.protocol_version
    }
}

impl PartialEqSpecImpl for NetworkConfig {
    open spec fn obeys_eq_spec() -> bool {
        true
    }

    open spec fn eq_spec(&self, other: &Self) -> bool {
        self.network_id@ == other.network_id@ && self.chain_id == other.chain_id && self.genesis_hash@
            == other.genesis_hash@ && self.protocol_version@ == other.protocol_version@
    }
}

/// Represents a block in the blockchain
#[derive(Clone, Debug)]
pub struct Block {
    /// Block index in the chain
    pub index: u64,
    /// Block creation time, in seconds since the Unix epoch (UTC)
    pub timestamp: i64,
    /// MPT-based data storage
    pub data: MerklePatriciaTrie,
    /// Hash of the previous block
    pub previous_hash: String,
    /// Hash of this block
    pub hash: String,
    /// Proof-of-work nonce
    pub nonce: u64,
}

/// The bytes that a block's hash is the digest of: the decimal index, the
/// decimal timestamp, the data's root hash, the previous hash and the
/// decimal nonce.
pub open spec fn hash_input(index: u64, timestamp: i64, root: Seq<u8>, previous_hash: Seq<char>, nonce: u64) -> Seq<u8> {
    dec_bytes(index as nat) + signed_dec_bytes(timestamp as int) + root + encode_utf8(previous_hash) + dec_bytes(
        nonce as nat,
    )
}

/// The hash of a block with the given contents: the lowercase hex of the
/// SHA-256 digest of its hash input.
pub open spec fn block_hash_of(
    index: u64,
    timestamp: i64,
    data: MerklePatriciaTrie,
    previous_hash: Seq<char>,
    nonce: u64,
) -> Seq<char> {
    spec_hex(spec_sha256(hash_input(index, timestamp, spec_root_hash(data.spec_root()), previous_hash, nonce)))
}

/// The first `difficulty` bytes of the text are the digit `0` (what
/// `starts_with` on a run of zeros tests).
pub open spec fn zero_prefixed(text: Seq<char>, difficulty: nat) -> bool {
    let b = encode_utf8(text);
    &&& difficulty <= b.len()
    &&& forall|i: int| 0 <= i < difficulty ==> #[trigger] b[i] == 48u8
}

/// The data that a genesis block starts from.
pub open spec fn genesis_entries(network_id: Seq<char>, chain_id: u64, protocol_version: Seq<char>) -> Map<
    Seq<char>,
    Seq<u8>,
> {
    Map::empty().insert("message"@, encode_utf8("Genesis Block"@)).insert("version"@, encode_utf8("1.0"@)).insert(
        "network_id"@,
        encode_utf8(network_id),
    ).insert("chain_id"@, dec_bytes(chain_id as nat)).insert("protocol_version"@, encode_utf8(protocol_version))
}

/// `b` is the genesis block of the network `config`: index 0, previous
/// hash "0", nonce 0, a correct hash, and as data the genesis entries plus
/// the hash of a preliminary genesis block, made at time `first_time`,
/// under "genesis_hash".
pub open spec fn genesis_from(b: Block, config: NetworkConfig, first_time: i64) -> bool {
    let entries = genesis_entries(config.network_id@, config.chain_id, config.protocol_version@);
    &&& b.index == 0
    &&& b.previous_hash@ == "0"@
    &&& b.nonce == 0
    &&& b.hash@ == b.spec_hash()
    &&& exists|pre: MerklePatriciaTrie|
        #![trigger block_hash_of(0, first_time, pre, "0"@, 0)]
        pre@ == entries && b.data@ == entries.insert(
            "genesis_hash"@,
            encode_utf8(block_hash_of(0, first_time, pre, "0"@, 0)),
        )
}

/// The view of the listing of a trie: (key, value) pairs.
pub open spec fn listing_view(all: Seq<(String, Vec<u8>)>) -> Seq<(Seq<char>, Seq<u8>)> {
    all.map_values(|e: (String, Vec<u8>)| (e.0@, e.1@))
}

/// A line of a block's summary for one entry.
pub open spec fn entry_line(e: (Seq<char>, Seq<u8>)) -> Seq<char> {
    "  "@ + e.0 + " -> "@ + spec_utf8_lossy(e.1)
}

/// The lines of the first `n` entries, one per line.
pub open spec fn entry_lines(es: Seq<(Seq<char>, Seq<u8>)>, n: nat) -> Seq<char>
    decreases n,
{
    if n == 0 {
        Seq::empty()
    } else if n == 1 {
        entry_line(es[0])
    } else {
        entry_lines(es, (n - 1) as nat) + "\n"@ + entry_line(es[n - 1])
    }
}

/// The text of a block's time.
pub open spec fn time_text(secs: i64) -> Seq<char> {
    match spec_utc_text(secs) {
        Some(t) => t,
        None => signed_dec_chars(secs as int),
    }
}

/// The summary of a block whose data lists as `es`.
pub open spec fn info_text(b: Block, es: Seq<(Seq<char>, Seq<u8>)>) -> Seq<char> {
    "Block #"@ + dec_chars(b.index as nat) + ":\nHash: "@ + b.hash@ + "\nPrevious: "@ + b.previous_hash@
        + "\nMPT Root: "@ + spec_hex(spec_root_hash(b.data.spec_root())) + "\nTimestamp: "@ + time_text(
        b.timestamp,
    ) + "\nNonce: "@ + dec_chars(b.nonce as nat) + "\nData Entries: "@ + dec_chars(es.len()) + "\n"@ + if es.len()
        == 0 {
        "  (empty)"@
    } else {
        entry_lines(es, if es.len() < 3 { es.len() } else { 3 })
    }
}

/// Appends bytes to a byte vector.
fn push_bytes(out: &mut Vec<u8>, bytes: &[u8])
    ensures
        final(out)@ == old(out)@ + bytes@,
{
    let mut i: usize = 0;
    while i < bytes.len()
        invariant
            i <= bytes@.len(),
            out@ == old(out)@ + bytes@.subrange(0, i as int),
        decreases bytes@.len() - i,
    {
        out.push(bytes[i]);
        i = i + 1;
        assert(out@ =~= old(out)@ + bytes@.subrange(0, i as int));
    }
    assert(bytes@.subrange(0, bytes@.len() as int) =~= bytes@);
}

/// The text starts with exactly `difficulty` zeros: that many, and not
/// one more.
pub open spec fn mined_at(text: Seq<char>, difficulty: nat) -> bool {
    zero_prefixed(text, difficulty) && !zero_prefixed(text, difficulty + 1)
}

/// Whether the text starts with exactly `difficulty` zeros.
pub fn has_exact_zero_prefix(text: &String, difficulty: usize) -> (r: bool)
    ensures
        r == mined_at(text@, difficulty as nat),
{
    if !has_zero_prefix(text, difficulty) {
        return false;
    }
    if difficulty == usize::MAX {
        let bytes = text.as_str().as_bytes();
        let n = bytes.len();
        proof {
            assert(bytes@ == encode_utf8(text@));
            assert(n == bytes@.len());
            assert(!zero_prefixed(text@, difficulty as nat + 1));
        }
        return true;
    }
    !has_zero_prefix(text, difficulty + 1)
}

/// Whether the text starts with `difficulty` zeros.
pub fn has_zero_prefix(text: &String, difficulty: usize) -> (r: bool)
    ensures
        r == zero_prefixed(text@, difficulty as nat),
{
    let bytes = text.as_str().as_bytes();
    if difficulty > bytes.len() {
        return false;
    }
    let mut i: usize = 0;
    while i < difficulty
        invariant
            difficulty <= bytes@.len(),
            bytes@ == encode_utf8(text@),
            i <= difficulty,
            forall|j: int| 0 <= j < i ==> bytes@[j] == 48u8,
        decreases difficulty - i,
    {
        if bytes[i] != 48u8 {
            return false;
        }
        i = i + 1;
    }
    true
}

/// The UTF-8 bytes of a string.
pub fn str_bytes(s: &str) -> (bytes: Vec<u8>)
    ensures
        bytes@ == encode_utf8(s@),
{
    vstd::slice::slice_to_vec(s.as_bytes())
}

/// The decimal digits of a number as bytes.
fn decimal_bytes(n: u64) -> (bytes: Vec<u8>)
    ensures
        bytes@ == dec_bytes(n as nat),
{
    let mut bytes: Vec<u8> = Vec::new();
    push_decimal(n, &mut bytes);
    assert(bytes@ =~= dec_bytes(n as nat));
    bytes
}

impl Block {
    /// The hash that the block's contents call for.
    pub open spec fn spec_hash(&self) -> Seq<char> {
        block_hash_of(self.index, self.timestamp, self.data, self.previous_hash@, self.nonce)
    }

    /// A new block made at the given time, with nonce 0 and its hash.
    pub fn new_at(index: u64, timestamp: i64, data: MerklePatriciaTrie, previous_hash: String) -> (block: Self)
        ensures
            block.index == index,
            block.timestamp == timestamp,
            block.data == data,
            block.previous_hash == previous_hash,
            block.nonce == 0,
            block.hash@ == block.spec_hash(),
    {
        let mut block = Self { index, timestamp, data, previous_hash, hash: String::new(), nonce: 0 };
        block.hash = block.calculate_hash();
        block
    }

    /// Create a new block with MPT data
    pub fn new(index: u64, data: MerklePatriciaTrie, previous_hash: String) -> (block: Self)
        ensures
            block.index == index,
            block.data == data,
            block.previous_hash == previous_hash,
            block.nonce == 0,
            block.hash@ == block.spec_hash(),
    {
        let timestamp = now_unix_seconds();
        Self::new_at(index, timestamp, data, previous_hash)
    }

    /// The genesis data of a network, without its genesis hash.
    fn genesis_data(network_id: &String, chain_id: u64, protocol_version: &String) -> (data: MerklePatriciaTrie)
        ensures
            data@ == genesis_entries(network_id@, chain_id, protocol_version@),
    {
        let mut data = MerklePatriciaTrie::new();
        let _ = data.insert("message", str_bytes("Genesis Block"));
        let _ = data.insert("version", str_bytes("1.0"));
        let _ = data.insert("network_id", str_bytes(network_id.as_str()));
        let _ = data.insert("chain_id", decimal_bytes(chain_id));
        let _ = data.insert("protocol_version", str_bytes(protocol_version.as_str()));
        data
    }

    /// The genesis block of a network, its preliminary block made at
    /// `first_time` and the final one at `final_time`.
    pub fn genesis_with_config_at(network_config: NetworkConfig, first_time: i64, final_time: i64) -> (block: Self)
        ensures
            genesis_from(block, network_config, first_time),
            block.timestamp == final_time,
    {
        let genesis_data = Self::genesis_data(
            &network_config.network_id,
            network_config.chain_id,
            &network_config.protocol_version,
        );
        let ghost pre = genesis_data;
        // Create genesis block first to get its hash
        let genesis_block = Self::new_at(0, first_time, genesis_data, String::from_str("0"));
        let genesis_hash = genesis_block.hash;

        // Create final genesis block with correct network config
        let mut final_genesis_data = Self::genesis_data(
            &network_config.network_id,
            network_config.chain_id,
            &network_config.protocol_version,
        );
        let _ = final_genesis_data.insert("genesis_hash", str_bytes(genesis_hash.as_str()));

        // Create final genesis block
        let block = Self::new_at(0, final_time, final_genesis_data, String::from_str("0"));
        proof {
            reveal_strlit("0");
            assert(genesis_hash@ == block_hash_of(0, first_time, pre, "0"@, 0));
        }
        block
    }

    /// Create the genesis block with network configuration
    pub fn genesis_with_config(network_config: NetworkConfig) -> (block: Self)
        ensures
            exists|first_time: i64| genesis_from(block, network_config, first_time),
    {
        let first_time = now_unix_seconds();
        let final_time = now_unix_seconds();
        Self::genesis_with_config_at(network_config, first_time, final_time)
    }

    /// The configuration of the default network, "vc-mainnet", which the
    /// legacy genesis block was made for.
    pub open spec fn legacy_config(c: NetworkConfig) -> bool {
        &&& c.network_id@ == "vc-mainnet"@
        &&& c.chain_id == 1
        &&& c.genesis_hash@ == ""@
        &&& c.protocol_version@ == "1.0.0"@
    }

    /// Create the legacy genesis block (for backward compatibility)
    pub fn genesis() -> (block: Self)
        ensures
            exists|c: NetworkConfig, t: i64| Self::legacy_config(c) && genesis_from(block, c, t),
    {
        let network_config = NetworkConfig {
            network_id: String::from_str("vc-mainnet"),
            chain_id: 1,
            genesis_hash: String::from_str(""),
            protocol_version: String::from_str("1.0.0"),
        };
        let ghost c = network_config;
        let block = Self::genesis_with_config(network_config);
        proof {
            let t = choose|t: i64| genesis_from(block, c, t);
            assert(Self::legacy_config(c) && genesis_from(block, c, t));
        }
        block
    }

    /// Calculate the block hash
    pub fn calculate_hash(&self) -> (hash: String)
        ensures
            hash@ == self.spec_hash(),
    {
        let mut input: Vec<u8> = Vec::new();
        push_decimal(self.index, &mut input);
        push_signed_decimal(self.timestamp, &mut input);
        let root = self.data.root_hash();
        push_bytes(&mut input, root.as_slice());
        push_bytes(&mut input, self.previous_hash.as_str().as_bytes());
        push_decimal(self.nonce, &mut input);
        proof {
            assert(input@ =~= hash_input(
                self.index,
                self.timestamp,
                spec_root_hash(self.data.spec_root()),
                self.previous_hash@,
                self.nonce,
            ));
        }
        let digest = sha256(input.as_slice());
        hex_encode(digest.as_slice())
    }

    /// The block carries the hash that its contents call for and, unless it
    /// is the genesis block, the proof of work of the difficulty.
    pub open spec fn spec_valid(&self, difficulty: usize) -> bool {
        self.hash@ == self.spec_hash() && (self.index == 0 || zero_prefixed(self.hash@, difficulty as nat))
    }

    /// Mine the block with proof-of-work: raise the nonce until the hash
    /// starts with exactly `difficulty` zeros, no more (a hash that already
    /// does is kept), so that the block meets its difficulty and not the
    /// next one. The search ends at the largest nonce. A block that carried
    /// its own hash is valid at the difficulty afterwards, unless the
    /// search ran out of nonces.
    pub fn mine_block(&mut self, difficulty: usize)
        ensures
            old(self).hash@ == old(self).spec_hash() ==> final(self).spec_valid(difficulty) || final(self).nonce
                == u64::MAX,
            final(self).index == old(self).index,
            final(self).timestamp == old(self).timestamp,
            final(self).data == old(self).data,
            final(self).previous_hash == old(self).previous_hash,
            mined_at(old(self).hash@, difficulty as nat) || old(self).nonce == u64::MAX ==> *final(self)
                == *old(self),
            !mined_at(old(self).hash@, difficulty as nat) && old(self).nonce < u64::MAX ==> {
                &&& final(self).nonce > old(self).nonce
                &&& final(self).hash@ == final(self).spec_hash()
                &&& mined_at(final(self).hash@, difficulty as nat) || final(self).nonce == u64::MAX
                &&& forall|n: u64|
                    old(self).nonce < n < final(self).nonce ==> !mined_at(
                        #[trigger] block_hash_of(
                            old(self).index,
                            old(self).timestamp,
                            old(self).data,
                            old(self).previous_hash@,
                            n,
                        ),
                        difficulty as nat,
                    )
            },
    {
        let ghost start = *self;
        while !has_exact_zero_prefix(&self.hash, difficulty) && self.nonce < u64::MAX
            invariant
                self.index == start.index,
                self.timestamp == start.timestamp,
                self.data == start.data,
                self.previous_hash == start.previous_hash,
                self.nonce >= start.nonce,
                self.nonce == start.nonce ==> *self == start,
                mined_at(start.hash@, difficulty as nat) ==> self.nonce == start.nonce,
                self.nonce > start.nonce ==> self.hash@ == self.spec_hash(),
                forall|n: u64|
                    start.nonce < n < self.nonce ==> !mined_at(
                        #[trigger] block_hash_of(start.index, start.timestamp, start.data, start.previous_hash@, n),
                        difficulty as nat,
                    ),
            decreases u64::MAX - self.nonce,
        {
            self.nonce = self.nonce + 1;
            self.hash = self.calculate_hash();
        }
    }

    /// Validate block structure and proof-of-work
    pub fn is_valid(&self, difficulty: usize) -> (valid: bool)
        ensures
            valid == self.spec_valid(difficulty),
            valid ==> self.hash@ == block_hash_of(
                self.index,
                self.timestamp,
                self.data,
                self.previous_hash@,
                self.nonce,
            ),
            valid && self.index > 0 ==> zero_prefixed(self.hash@, difficulty as nat),
            self.hash@ != block_hash_of(self.index, self.timestamp, self.data, self.previous_hash@, self.nonce)
                ==> !valid,
    {
        // Check hash calculation
        let expected = self.calculate_hash();
        if !(self.hash == expected) {
            return false;
        }
        // Skip proof-of-work validation for genesis block
        if self.index == 0 {
            return true;
        }
        // Check proof-of-work for non-genesis blocks
        has_zero_prefix(&self.hash, difficulty)
    }

    /// Get formatted block information: the summary over the listing of
    /// the block's data (which the data determines).
    pub fn format_info(&self) -> (info: String)
        ensures
            forall|all: Seq<(String, Vec<u8>)>|
                #![trigger listing_view(all)]
                self.data.lists(all) ==> info@ == info_text(*self, listing_view(all)),
    {
        let data_entries = self.data.get_all();
        let ghost es = listing_view(data_entries@);
        let mut info = String::from_str("Block #");
        info.append(u64_to_string(self.index).as_str());
        info.append(":\nHash: ");
        info.append(self.hash.as_str());
        info.append("\nPrevious: ");
        info.append(self.previous_hash.as_str());
        info.append("\nMPT Root: ");
        info.append(self.data.hex_root_hash().as_str());
        info.append("\nTimestamp: ");
        match utc_text(self.timestamp) {
            Some(t) => info.append(t.as_str()),
            None => info.append(i64_to_string(self.timestamp).as_str()),
        }
        info.append("\nNonce: ");
        info.append(u64_to_string(self.nonce).as_str());
        info.append("\nData Entries: ");
        info.append(usize_to_string(data_entries.len()).as_str());
        info.append("\n");
        if data_entries.len() == 0 {
            info.append("  (empty)");
        } else {
            let shown: usize = if data_entries.len() < 3 { data_entries.len() } else { 3 };
            let mut i: usize = 0;
            let ghost head = info@;
            while i < shown
                invariant
                    shown <= data_entries@.len(),
                    es == listing_view(data_entries@),
                    i <= shown,
                    info@ == head + entry_lines(es, i as nat),
                decreases shown - i,
            {
                if i > 0 {
                    info.append("\n");
                }
                info.append("  ");
                info.append(data_entries[i].0.as_str());
                info.append(" -> ");
                info.append(utf8_lossy(data_entries[i].1.as_slice()).as_str());
                i = i + 1;
                proof {
                    assert(es[i - 1] == (data_entries@[i - 1].0@, data_entries@[i - 1].1@));
                    assert(info@ =~= head + entry_lines(es, i as nat));
                }
            }
        }
        proof {
            assert(info@ =~= info_text(*self, es));
            assert forall|all: Seq<(String, Vec<u8>)>|
                #![trigger listing_view(all)]
                self.data.lists(all) implies info@ == info_text(*self, listing_view(all)) by {
                lemma_listing_unique(self.data, data_entries@, all);
                assert(listing_view(all) =~= es);
            }
        }
        info
    }
}

} // verus!
