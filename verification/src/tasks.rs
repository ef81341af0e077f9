//! The task-execution protocol: each pipeline stage is a self-contained
//! unit of work producing a typed response envelope.
//!
//! A stage's `run` computes its output; `done` wraps the output into the
//! stage's response envelope, tagging the task and job it belongs to.
//! Delivering the envelope to its destination mailbox is plumbing outside
//! the library; it is best-effort once the response is produced.

use crate::dedup::dedup_records;
use crate::dedup::ids_distinct;
use crate::dedup::spec_dedup;
use crate::fresh_id;
use crate::types::EmbeddingRecord;
use crate::types::LogHandle;
use crate::types::SegmentManagerHandle;
use crate::types::Task;
use vstd::prelude::*;

verus! {

/// Progress report carried by a task response.
#[derive(Clone, Copy, PartialEq, Eq, Structural, Debug)]
pub enum TaskStatus {
    Running,
    Done,
    Timeout,
    Failed,
}

/// The uniform envelope every task type returns: a task and job identifier,
/// a status, and an opaque result payload.
#[derive(Debug)]
pub struct TaskResponse<O> {
    pub task_id: u128,
    pub job_id: u128,
    pub status: TaskStatus,
    pub result: O,
}

/// Stands for the handle of a spawned unit of work; the code around the
/// library maps it to the real join handle.
#[derive(Clone, Copy, PartialEq, Eq, Structural, Debug)]
pub struct JobHandleRef {
    pub id: u64,
}

/// Why the log collaborator could not serve a read.
#[derive(Clone, Copy, PartialEq, Eq, Structural, Debug)]
pub enum LogError {
    ReadFailed,
}

/// How many records a scan reads from the log at most.
pub const SCAN_BATCH_SIZE: i32 = 1000;

/// Reads a batch of records for the job's collection starting at the task's
/// offset. The read itself happens at the log collaborator; the scan turns a
/// read error into an empty result rather than failing the job.
pub struct ScanTask {
    pub task_id: u128,
    pub job_id: u128,
    pub task: Task,
    pub log: LogHandle,
    pub batch_size: i32,
}

/// The scan stage's response envelope.
pub struct ScanTaskResponse {
    pub response: TaskResponse<Vec<EmbeddingRecord>>,
}

impl ScanTask {
    pub fn new(job_id: u128, task: Task, log: LogHandle) -> (r: ScanTask)
        ensures
            r.job_id == job_id,
            r.task == task,
            r.log == log,
            r.batch_size == SCAN_BATCH_SIZE,
    {
        ScanTask { task_id: fresh_id(), job_id, task, log, batch_size: SCAN_BATCH_SIZE }
    }

    /// What the scan makes of the log's answer: the records on success, an
    /// empty batch on a read error.
    pub fn outcome(&self, read_result: Result<Vec<EmbeddingRecord>, LogError>) -> (r: Vec<
        EmbeddingRecord,
    >)
        ensures
            match read_result {
                Ok(records) => r@ == records@,
                Err(_) => r@ == Seq::<EmbeddingRecord>::empty(),
            },
    {
        match read_result {
            Ok(records) => records,
            Err(_) => Vec::new(),
        }
    }

    /// Wraps the scanned records into the scan response envelope.
    pub fn done(&self, output: Vec<EmbeddingRecord>) -> (r: ScanTaskResponse)
        ensures
            r.response.task_id == self.task_id,
            r.response.job_id == self.job_id,
            r.response.status == TaskStatus::Done,
            r.response.result@ == output@,
    {
        ScanTaskResponse {
            response: TaskResponse {
                task_id: self.task_id,
                job_id: self.job_id,
                status: TaskStatus::Done,
                result: output,
            },
        }
    }
}

/// Collapses the scanned records by identifier, last write wins.
pub struct DedupTask {
    pub task_id: u128,
    pub job_id: u128,
    pub task: Task,
    pub records: Vec<EmbeddingRecord>,
}

/// The dedup stage's response envelope.
pub struct DedupTaskResponse {
    pub response: TaskResponse<Vec<EmbeddingRecord>>,
}

impl DedupTask {
    pub fn new(job_id: u128, task: Task, records: Vec<EmbeddingRecord>) -> (r: DedupTask)
        ensures
            r.job_id == job_id,
            r.task == task,
            r.records@ == records@,
    {
        DedupTask { task_id: fresh_id(), job_id, task, records }
    }

    /// The surviving records: one per identifier, each holding its
    /// identifier's last occurrence.
    pub fn run(&self) -> (r: Vec<EmbeddingRecord>)
        ensures
            r@ == spec_dedup(self.records@),
            ids_distinct(r@),
    {
        dedup_records(&self.records)
    }

    /// Wraps the surviving records into the dedup response envelope.
    pub fn done(&self, output: Vec<EmbeddingRecord>) -> (r: DedupTaskResponse)
        ensures
            r.response.task_id == self.task_id,
            r.response.job_id == self.job_id,
            r.response.status == TaskStatus::Done,
            r.response.result@ == output@,
    {
        DedupTaskResponse {
            response: TaskResponse {
                task_id: self.task_id,
                job_id: self.job_id,
                status: TaskStatus::Done,
                result: output,
            },
        }
    }
}

/// Applies a chunk of deduplicated records to the segment manager. The
/// writes themselves happen at the segment-manager collaborator, outside the
/// library; the task carries everything a retry needs.
#[derive(Debug)]
pub struct WriteTask {
    pub task_id: u128,
    pub job_id: u128,
    pub task: Task,
    pub records: Vec<EmbeddingRecord>,
    pub segment_manager: SegmentManagerHandle,
}

impl Clone for WriteTask {
    fn clone(&self) -> (r: Self)
        ensures
            r.task_id == self.task_id,
            r.job_id == self.job_id,
            r.task == self.task,
            r.records@ == self.records@,
            r.segment_manager == self.segment_manager,
    {
        let records = self.records.clone();
        proof {
            assert(records@ =~= self.records@);
        }
        WriteTask {
            task_id: self.task_id,
            job_id: self.job_id,
            task: self.task.clone(),
            records,
            segment_manager: self.segment_manager,
        }
    }
}

/// The write stage's response envelope.
#[derive(Debug)]
pub struct WriteTaskResponse {
    pub response: TaskResponse<Option<JobHandleRef>>,
}

impl PartialEq for WriteTaskResponse {
    fn eq(&self, other: &Self) -> (r: bool) {
        self.response.job_id == other.response.job_id && self.response.status
            == other.response.status
    }
}

impl vstd::std_specs::cmp::PartialEqSpecImpl for WriteTaskResponse {
    open spec fn obeys_eq_spec() -> bool {
        true
    }

    open spec fn eq_spec(&self, other: &Self) -> bool {
        self.response.job_id == other.response.job_id && self.response.status
            == other.response.status
    }
}

impl WriteTask {
    pub fn new(
        job_id: u128,
        task: Task,
        records: Vec<EmbeddingRecord>,
        segment_manager: SegmentManagerHandle,
    ) -> (r: WriteTask)
        ensures
            r.job_id == job_id,
            r.task == task,
            r.records@ == records@,
            r.segment_manager == segment_manager,
    {
        WriteTask { task_id: fresh_id(), job_id, task, records, segment_manager }
    }

    pub fn get_id(&self) -> (r: u128)
        ensures
            r == self.task_id,
    {
        self.task_id
    }

    /// How many records the write applies.
    pub fn record_count(&self) -> (r: usize)
        ensures
            r == self.records@.len(),
    {
        self.records.len()
    }

    /// Wraps the write outcome into the write response envelope; a finished
    /// write always reports `Done` at this layer.
    pub fn done(&self, output: Option<JobHandleRef>) -> (r: WriteTaskResponse)
        ensures
            r.response.task_id == self.task_id,
            r.response.job_id == self.job_id,
            r.response.status == TaskStatus::Done,
            r.response.result == output,
    {
        WriteTaskResponse {
            response: TaskResponse {
                task_id: self.task_id,
                job_id: self.job_id,
                status: TaskStatus::Done,
                result: output,
            },
        }
    }

    /// The write stage runs on its own multi-threaded placement.
    pub fn queue_size(&self) -> (r: usize)
        ensures
            r == 100,
    {
        100
    }
}

/// Signals the segment manager to persist the job's segment state; treated
/// as always succeeding at this layer. Carries the identifiers of the job
/// it flushes, so its response correlates with that job.
#[derive(Debug)]
pub struct FlushTask {
    pub task_id: u128,
    pub job_id: u128,
    pub task: Task,
    pub segment_manager: SegmentManagerHandle,
}

impl Clone for FlushTask {
    fn clone(&self) -> (r: Self)
        ensures
            r == *self,
    {
        FlushTask {
            task_id: self.task_id,
            job_id: self.job_id,
            task: self.task.clone(),
            segment_manager: self.segment_manager,
        }
    }
}

/// The flush stage's response envelope.
pub struct FlushTaskResponse {
    pub response: TaskResponse<()>,
}

impl FlushTask {
    pub fn new(job_id: u128, task: Task, segment_manager: SegmentManagerHandle) -> (r: FlushTask)
        ensures
            r.job_id == job_id,
            r.task == task,
            r.segment_manager == segment_manager,
    {
        FlushTask { task_id: fresh_id(), job_id, task, segment_manager }
    }

    /// Wraps the flush outcome into the flush response envelope, tagging the
    /// flushed job's identifiers.
    pub fn done(&self, _output: ()) -> (r: FlushTaskResponse)
        ensures
            r.response.task_id == self.task_id,
            r.response.job_id == self.job_id,
            r.response.status == TaskStatus::Done,
    {
        FlushTaskResponse {
            response: TaskResponse {
                task_id: self.task_id,
                job_id: self.job_id,
                status: TaskStatus::Done,
                result: (),
            },
        }
    }
}

} // verus!
