//! Record and task descriptor types shared by the compaction pipeline.

use vstd::prelude::*;

verus! {

/// The kind of log operation a record carries.
#[derive(Clone, Copy, PartialEq, Eq, Structural, Debug)]
pub enum Operation {
    Add,
    Update,
    Upsert,
    Delete,
}

/// The unit of log and segment data carried through scan, dedup and write.
/// `id` is the logical key used both for deduplication and for partition
/// grouping; `seq_id` orders records within a collection's log.
#[derive(Debug)]
pub struct EmbeddingRecord {
    pub id: String,
    pub seq_id: u64,
    pub operation: Operation,
    pub collection_id: u128,
}

impl Clone for EmbeddingRecord {
    fn clone(&self) -> (r: Self)
        ensures
            r == *self,
    {
        EmbeddingRecord {
            id: self.id.clone(),
            seq_id: self.seq_id,
            operation: self.operation,
            collection_id: self.collection_id,
        }
    }
}

/// Immutable descriptor of one compaction request: which collection to
/// compact, from which log offset, and for which tenant.
#[derive(Debug)]
pub struct Task {
    pub collection_id: u128,
    pub offset: i64,
    pub tenant_id: String,
}

impl Clone for Task {
    fn clone(&self) -> (r: Self)
        ensures
            r == *self,
    {
        Task {
            collection_id: self.collection_id,
            offset: self.offset,
            tenant_id: self.tenant_id.clone(),
        }
    }
}

/// A plain handle naming a segment-manager collaborator instance. The
/// library only stores and passes it; the code around the library maps it
/// to the real segment manager.
#[derive(Clone, Copy, PartialEq, Eq, Structural, Debug)]
pub struct SegmentManagerHandle {
    pub id: u64,
}

/// A plain handle naming a log collaborator instance, in the same way.
#[derive(Clone, Copy, PartialEq, Eq, Structural, Debug)]
pub struct LogHandle {
    pub id: u64,
}

} // verus!
