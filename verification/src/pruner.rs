//! Version-driven pruning of the stale nodes of a sharded, versioned
//! Merkle forest.
//!
//! Every committed version of the forest retires some tree nodes. A
//! retired node is announced by a stale index. The pruner deletes nodes and
//! their stale indices round by round: the metadata pruner names the
//! boundary of a round and records it as the durable progress, the shard
//! pruners delete up to it, and the orchestrator then moves its progress.
//! No node is deleted while its stale index is of a version beyond the
//! durable progress, and a node goes in the same atomic write as its stale
//! index.

pub mod index;
pub mod lookahead;
pub mod partition;
pub mod retirement;
pub mod rounds;
pub mod schema_batch;
pub mod state_merkle_db;
pub mod state_merkle_metadata_pruner;
pub mod state_merkle_pruner;
pub mod state_merkle_shard_pruner;
