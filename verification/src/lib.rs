//! A replicated state-machine library built on the Raft consensus algorithm.
//!
//! The crate holds the consensus engine of a single replica: the durable log,
//! the term and vote metadata, snapshot bookkeeping, per-peer replication
//! state, joint-consensus membership, and the role state machine that reacts to
//! timers and to the RPCs exchanged between replicas. Every handler computes a
//! result and a list of effects; transport, timers and files are left to the
//! caller.
pub mod raft;
