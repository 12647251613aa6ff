//! Validation and state transitions of a commit/reveal naming sidechain.

pub mod hashes;
pub mod types;
pub mod table;
pub mod authorization;
pub mod validation;
pub mod nameserver;
pub mod laws;
