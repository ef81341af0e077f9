//! Core of a compaction worker for a distributed vector store.
//!
//! The library holds the verified logic of the worker: the record types and
//! task descriptors, the key-aware record partitioner, deduplication,
//! the compaction job state machine and the manager that drives it, the
//! scheduler queue, the in-memory log, and the caches that memoize catalog
//! lookups. I/O, executors and mailbox plumbing live outside the library and
//! call into it with plain values.

use vstd::prelude::*;

pub mod cache;
pub mod data_chunk;
pub mod dedup;
pub mod ingest;
pub mod job;
pub mod log;
pub mod manager;
pub mod metadata;
pub mod partition;
pub mod scheduler;
pub mod tasks;
pub mod types;

verus! {

/// Generates a fresh 128-bit identifier for tasks and jobs.
///
/// Relies on uuid::Uuid::new_v4, which draws a random version-4 UUID;
/// nothing is promised of the result.
#[verifier::external_body]
pub(crate) fn fresh_id() -> u128 {
    uuid::Uuid::new_v4().as_u128()
}

} // verus!
