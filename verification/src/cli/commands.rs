//! The command processor of the command line application.

use vstd::prelude::*;
use vstd::string::*;
use crate::cli::args::Commands;
use crate::error::{BlockchainError, Result};
use crate::storage::FileStorage;

verus! {

/// CLI command processor for synchronous operations
pub struct VcbcApp {
    storage: FileStorage,
}

/// The name of a command, as its delegation message gives it.
pub open spec fn command_name(command: Commands) -> Seq<char> {
    match command {
        Commands::InitChain { .. } => "InitChain"@,
        Commands::InitNode { .. } => "InitNode"@,
        Commands::StartBootnode { .. } => "StartBootnode"@,
        Commands::StartNode { .. } => "StartNode"@,
        Commands::InitAuthority { .. } => "InitAuthority"@,
        Commands::RegisterBootnode { .. } => "RegisterBootnode"@,
    }
}

impl VcbcApp {
    /// The path of the storage file.
    pub closed spec fn spec_storage_path(&self) -> Seq<char> {
        self.storage.spec_path()
    }

    /// Create new CLI application instance
    pub fn new(storage_path: &str) -> (app: Self)
        ensures
            app.spec_storage_path() == storage_path@,
    {
        VcbcApp { storage: FileStorage::new(storage_path) }
    }

    /// The storage that the application uses.
    pub fn storage(&self) -> (storage: &FileStorage)
        ensures
            storage.spec_path() == self.spec_storage_path(),
    {
        &self.storage
    }

    /// Process CLI commands (synchronous operations): every command is
    /// handled by the program's entry point, so each is refused here with a
    /// message that names it.
    pub fn process_command(&self, command: &Commands) -> (res: Result<()>)
        ensures
            res matches Err(BlockchainError::InvalidInput(m)) && m@ == command_name(*command)
                + " command should be handled in main.rs"@,
    {
        let name = match command {
            Commands::InitChain { .. } => "InitChain",
            Commands::InitNode { .. } => "InitNode",
            Commands::StartBootnode { .. } => "StartBootnode",
            Commands::StartNode { .. } => "StartNode",
            Commands::InitAuthority { .. } => "InitAuthority",
            Commands::RegisterBootnode { .. } => "RegisterBootnode",
        };
        let mut m = String::from_str(name);
        m.append(" command should be handled in main.rs");
        Err(BlockchainError::InvalidInput(m))
    }
}

} // verus!
