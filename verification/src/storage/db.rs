//! Storage backends: where a chain is kept, and the checks made before
//! saving and after loading.

use vstd::prelude::*;
use vstd::string::*;
use crate::blockchain::{Block, Blockchain, NetworkConfig};
use crate::error::{BlockchainError, Result};

verus! {

/// File-based storage implementation
pub struct FileStorage {
    file_path: String,
}

/// SQLite database storage implementation
pub struct SqliteStorage {
    db_path: String,
}

/// Some block of the chain stores no data.
pub open spec fn has_empty_block(chain: Seq<Block>) -> bool {
    exists|i: int| 0 <= i < chain.len() && (#[trigger] chain[i]).data@.is_empty()
}

impl FileStorage {
    /// Create new file storage with specified path
    pub fn new(file_path: &str) -> (storage: Self)
        ensures
            storage.spec_path() == file_path@,
    {
        FileStorage { file_path: String::from_str(file_path) }
    }

    /// The path of the file.
    pub closed spec fn spec_path(&self) -> Seq<char> {
        self.file_path@
    }

    /// The path of the file.
    pub fn file_path(&self) -> (path: &str)
        ensures
            path@ == self.spec_path(),
    {
        self.file_path.as_str()
    }

    /// Validate conditions before saving
    pub fn validate_save_conditions(&self, blockchain: &Blockchain) -> (res: Result<()>)
        ensures
            blockchain.chain@.len() == 0 ==> (res matches Err(BlockchainError::InvalidInput(m)) && m@
                == "Cannot save empty blockchain"@),
            blockchain.chain@.len() > 0 ==> res is Ok,
    {
        if blockchain.chain.len() == 0 {
            return Err(BlockchainError::InvalidInput(String::from_str("Cannot save empty blockchain")));
        }
        Ok(())
    }

    /// Validate loaded blockchain integrity: it has blocks, and each block
    /// stores some data.
    pub fn validate_loaded_blockchain(&self, blockchain: &Blockchain) -> (res: Result<()>)
        ensures
            blockchain.chain@.len() == 0 ==> (res matches Err(BlockchainError::InvalidInput(m)) && m@
                == "Loaded blockchain is empty"@),
            blockchain.chain@.len() > 0 && has_empty_block(blockchain.chain@) ==> (res matches Err(
                BlockchainError::BlockValidation(m),
            ) && m@ == "Loaded block has empty MPT data"@),
            blockchain.chain@.len() > 0 && !has_empty_block(blockchain.chain@) ==> res is Ok,
    {
        if blockchain.chain.len() == 0 {
            return Err(BlockchainError::InvalidInput(String::from_str("Loaded blockchain is empty")));
        }
        let mut i: usize = 0;
        while i < blockchain.chain.len()
            invariant
                i <= blockchain.chain@.len(),
                forall|j: int| 0 <= j < i ==> !(#[trigger] blockchain.chain@[j]).data@.is_empty(),
            decreases blockchain.chain@.len() - i,
        {
            let block = &blockchain.chain[i];
            let entries = block.data.get_all();
            proof {
                if entries@.len() == 0 && !block.data@.is_empty() {
                    let s = block.data@.dom().choose();
                    assert(block.data@.contains_key(s));
                }
                if entries@.len() > 0 {
                    assert(block.data@.contains_key(entries@[0].0@));
                }
            }
            if entries.len() == 0 {
                return Err(BlockchainError::BlockValidation(String::from_str("Loaded block has empty MPT data")));
            }
            i = i + 1;
        }
        Ok(())
    }
}

impl Default for FileStorage {
    fn default() -> (storage: Self)
        ensures
            storage.spec_path() == "blockchain.json"@,
    {
        Self::new("blockchain.json")
    }
}

impl SqliteStorage {
    /// Create new SQLite storage with specified database path
    pub fn new(db_path: &str) -> (storage: Self)
        ensures
            storage.spec_path() == db_path@,
    {
        SqliteStorage { db_path: String::from_str(db_path) }
    }

    /// The path of the database.
    pub closed spec fn spec_path(&self) -> Seq<char> {
        self.db_path@
    }

    /// The path of the database.
    pub fn db_path(&self) -> (path: &str)
        ensures
            path@ == self.spec_path(),
    {
        self.db_path.as_str()
    }

    /// The chain made of blocks loaded from the database (in index order),
    /// with the stored difficulty and network configuration; a database
    /// without blocks gives an error.
    pub fn assemble_loaded_chain(
        &self,
        chain: Vec<Block>,
        difficulty: usize,
        network_config: NetworkConfig,
    ) -> (res: Result<Blockchain>)
        ensures
            chain@.len() == 0 ==> (res matches Err(BlockchainError::InvalidInput(m)) && m@
                == "No blocks found in database"@),
            chain@.len() > 0 ==> res == Ok::<Blockchain, BlockchainError>(
                Blockchain { chain, difficulty, network_config },
            ),
    {
        if chain.len() == 0 {
            return Err(BlockchainError::InvalidInput(String::from_str("No blocks found in database")));
        }
        Ok(Blockchain { chain, difficulty, network_config })
    }
}

impl Default for SqliteStorage {
    fn default() -> (storage: Self)
        ensures
            storage.spec_path() == "blockchain.db"@,
    {
        Self::new("blockchain.db")
    }
}

} // verus!
