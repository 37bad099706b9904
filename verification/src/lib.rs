//! Coordinates acquisition of shard-able datasets under a concurrency limit,
//! aggregates per-shard progress into a single percentage, and classifies the
//! line protocol that long-running worker processes stream over their output.

pub mod archive;
pub mod bytes;
pub mod engine;
pub mod gate;
pub mod line_protocol;
pub mod merge;
pub mod progress;
pub mod record;
pub mod supervisor;
