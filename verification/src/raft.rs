//! The consensus engine and the data structures it owns.
pub mod config;
pub mod consensus;
pub mod json;
pub mod laws;
pub mod log;
pub mod metadata;
pub mod model;
pub mod peer;
pub mod proto;
pub mod snapshot;
pub mod state_machine;
pub mod text;
pub mod util;
