//! The commands of the command line, and what the library does with them.

pub mod args;
pub mod commands;

pub use args::{CliArgs, Commands};
pub use commands::VcbcApp;
