//! Storage locations and the checks on what is saved and loaded.

pub mod db;

pub use db::{FileStorage, SqliteStorage};
