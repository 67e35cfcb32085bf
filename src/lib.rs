//! Multi-source, multi-destination file replication: the decisions of the
//! discovery, hashing, arbitration and copy stages, with their contracts.
//!
//! The stages exchange plain values: the caller performs the filesystem
//! work and the channel traffic, and asks this library what to do next.
pub mod api;
pub mod arbiter;
pub mod common;
pub mod copier;
pub mod discover;
pub mod hash;
pub mod laws;
pub mod message;
pub mod order;
pub mod paths;

pub use api::get_cli_read_write_paths;
pub use common::MergeResult;
pub use common::ReadWritePaths;
