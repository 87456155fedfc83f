//! Error type of the library.

use vstd::prelude::*;
use vstd::string::StringExecFns;

verus! {

/// Custom error type for blockchain operations
#[derive(Debug, Clone, PartialEq)]
pub enum BlockchainError {
    /// Errors related to block validation
    BlockValidation(String),
    /// Errors related to MPT operations
    MptOperation(String),
    /// Errors related to proof generation/verification
    ProofError(String),
    /// Errors related to network communication
    NetworkError(String),
    /// Errors related to storage operations
    StorageError(String),
    /// Errors related to node operations
    NodeError(String),
    /// Invalid input parameters
    InvalidInput(String),
    /// Resource not found
    NotFound(String),
    /// Network mismatch between nodes
    NetworkMismatch { expected: String, received: String },
    /// Genesis block hash mismatch
    GenesisMismatch { expected: String, received: String },
    /// Protocol version mismatch
    ProtocolMismatch { expected: String, received: String },
    /// Internal consistency errors
    InternalError(String),
}

/// Type alias for Results using BlockchainError
pub type Result<T> = std::result::Result<T, BlockchainError>;

/// "<label>'<expected>', received '<received>'"
pub open spec fn mismatch_text(label: Seq<char>, expected: Seq<char>, received: Seq<char>) -> Seq<char> {
    label + ": expected '"@ + expected + "', received '"@ + received + "'"@
}

impl BlockchainError {
    /// The human-readable text of the error.
    pub open spec fn spec_message(&self) -> Seq<char> {
        match self {
            BlockchainError::BlockValidation(m) => "Block validation error: "@ + m@,
            BlockchainError::MptOperation(m) => "MPT operation error: "@ + m@,
            BlockchainError::ProofError(m) => "Proof error: "@ + m@,
            BlockchainError::NetworkError(m) => "Network error: "@ + m@,
            BlockchainError::StorageError(m) => "Storage error: "@ + m@,
            BlockchainError::NodeError(m) => "Node error: "@ + m@,
            BlockchainError::InvalidInput(m) => "Invalid input: "@ + m@,
            BlockchainError::NotFound(m) => "Not found: "@ + m@,
            BlockchainError::NetworkMismatch { expected, received } =>
                mismatch_text("Network mismatch"@, expected@, received@),
            BlockchainError::GenesisMismatch { expected, received } =>
                mismatch_text("Genesis mismatch"@, expected@, received@),
            BlockchainError::ProtocolMismatch { expected, received } =>
                mismatch_text("Protocol mismatch"@, expected@, received@),
            BlockchainError::InternalError(m) => "Internal error: "@ + m@,
        }
    }

    /// The human-readable text of the error (what `Display` shows).
    pub fn message(&self) -> (s: String)
        ensures
            s@ == self.spec_message(),
    {
        match self {
            BlockchainError::BlockValidation(m) => String::from_str("Block validation error: ").concat(m.as_str()),
            BlockchainError::MptOperation(m) => String::from_str("MPT operation error: ").concat(m.as_str()),
            BlockchainError::ProofError(m) => String::from_str("Proof error: ").concat(m.as_str()),
            BlockchainError::NetworkError(m) => String::from_str("Network error: ").concat(m.as_str()),
            BlockchainError::StorageError(m) => String::from_str("Storage error: ").concat(m.as_str()),
            BlockchainError::NodeError(m) => String::from_str("Node error: ").concat(m.as_str()),
            BlockchainError::InvalidInput(m) => String::from_str("Invalid input: ").concat(m.as_str()),
            BlockchainError::NotFound(m) => String::from_str("Not found: ").concat(m.as_str()),
            BlockchainError::NetworkMismatch { expected, received } =>
                mismatch_message("Network mismatch", expected, received),
            BlockchainError::GenesisMismatch { expected, received } =>
                mismatch_message("Genesis mismatch", expected, received),
            BlockchainError::ProtocolMismatch { expected, received } =>
                mismatch_message("Protocol mismatch", expected, received),
            BlockchainError::InternalError(m) => String::from_str("Internal error: ").concat(m.as_str()),
        }
    }
}

#[verifier::external_type_specification]
#[verifier::external_body]
pub struct ExIoError(std::io::Error);

#[verifier::external_type_specification]
#[verifier::external_body]
pub struct ExJsonError(serde_json::Error);

#[verifier::external_type_specification]
#[verifier::external_body]
pub struct ExSqliteError(rusqlite::Error);

/// `std::io::Error`'s `Display` text. Nothing is stated of the text: the
/// error is opaque here, and a name for the text could only take plain
/// values, which the error is not.
#[verifier::external_body]
fn io_error_text(err: &std::io::Error) -> (text: String) {
    err.to_string()
}

/// `serde_json::Error`'s `Display` text. Nothing is stated of the text:
/// the error is opaque here, and a name for the text could only take plain
/// values, which the error is not.
#[verifier::external_body]
fn json_error_text(err: &serde_json::Error) -> (text: String) {
    err.to_string()
}

/// `rusqlite::Error`'s `Display` text. Nothing is stated of the text: the
/// error is opaque here, and a name for the text could only take plain
/// values, which the error is not.
#[verifier::external_body]
fn sqlite_error_text(err: &rusqlite::Error) -> (text: String) {
    err.to_string()
}

// Conversion from common error types
impl From<std::io::Error> for BlockchainError {
    /// A storage error whose message is "IO error: " and the error's text.
    fn from(err: std::io::Error) -> (e: Self)
        ensures
            e matches BlockchainError::StorageError(m) && exists|t: Seq<char>| m@ == "IO error: "@ + t,
    {
        let text = io_error_text(&err);
        BlockchainError::StorageError(String::from_str("IO error: ").concat(text.as_str()))
    }
}

impl vstd::std_specs::convert::FromSpecImpl<std::io::Error> for BlockchainError {
    open spec fn obeys_from_spec() -> bool {
        false
    }

    open spec fn from_spec(v: std::io::Error) -> Self {
        arbitrary()
    }
}

impl From<serde_json::Error> for BlockchainError {
    /// A storage error whose message is "Serialization error: " and the
    /// error's text.
    fn from(err: serde_json::Error) -> (e: Self)
        ensures
            e matches BlockchainError::StorageError(m) && exists|t: Seq<char>| m@ == "Serialization error: "@ + t,
    {
        let text = json_error_text(&err);
        BlockchainError::StorageError(String::from_str("Serialization error: ").concat(text.as_str()))
    }
}

impl vstd::std_specs::convert::FromSpecImpl<serde_json::Error> for BlockchainError {
    open spec fn obeys_from_spec() -> bool {
        false
    }

    open spec fn from_spec(v: serde_json::Error) -> Self {
        arbitrary()
    }
}

impl From<rusqlite::Error> for BlockchainError {
    /// A storage error whose message is "Database error: " and the error's
    /// text.
    fn from(err: rusqlite::Error) -> (e: Self)
        ensures
            e matches BlockchainError::StorageError(m) && exists|t: Seq<char>| m@ == "Database error: "@ + t,
    {
        let text = sqlite_error_text(&err);
        BlockchainError::StorageError(String::from_str("Database error: ").concat(text.as_str()))
    }
}

impl vstd::std_specs::convert::FromSpecImpl<rusqlite::Error> for BlockchainError {
    open spec fn obeys_from_spec() -> bool {
        false
    }

    open spec fn from_spec(v: rusqlite::Error) -> Self {
        arbitrary()
    }
}

fn mismatch_message(label: &str, expected: &String, received: &String) -> (s: String)
    ensures
        s@ == mismatch_text(label@, expected@, received@),
{
    String::from_str(label).concat(": expected '").concat(expected.as_str()).concat("', received '").concat(
        received.as_str(),
    ).concat("'")
}

} // verus!
