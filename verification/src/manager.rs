//! The compaction orchestrator's state machine.
//!
//! The manager owns the map of live compaction jobs. Handed a pulled task
//! and its scanned records, it deduplicates them, chunks them into write
//! tasks and registers a job; handed a write-task response, it books
//! progress and decides the next action — count the write, dispatch the
//! flush, or re-dispatch the identical write task on failure or timeout.
//! Performing an action (sending to a mailbox, spawning work) is plumbing
//! outside the library; the manager only decides.

use crate::dedup::dedup_records;
use crate::dedup::lemma_spec_dedup_len;
use crate::dedup::spec_dedup;
use crate::job::write_task_index;
use crate::job::CompactionJob;
use crate::job::CompactionStatus;
use crate::tasks::FlushTask;
use crate::tasks::TaskStatus;
use crate::tasks::WriteTask;
use crate::tasks::WriteTaskResponse;
use crate::types::EmbeddingRecord;
use crate::types::LogHandle;
use crate::types::SegmentManagerHandle;
use crate::types::Task;
use vstd::prelude::*;

verus! {

/// What the caller must do after the manager processed a write-task
/// response.
#[derive(Debug)]
pub enum ManagerAction {
    /// A running task's handle was booked; nothing to dispatch.
    HandleRecorded,
    /// A write task finished but others are still outstanding.
    WriteProgress,
    /// Every write task finished: dispatch this flush task.
    DispatchFlush(FlushTask),
    /// A write task failed or timed out: re-dispatch this identical task.
    RedispatchWrite(WriteTask),
}

/// Why the manager rejected a write-task response.
#[derive(Clone, Copy, PartialEq, Eq, Structural, Debug)]
pub enum ManagerError {
    /// No live job carries the response's job identifier.
    UnknownJob,
    /// The job has no write task under the response's task identifier.
    UnknownWriteTask,
    /// A `Running` response arrived without a handle to book.
    MissingHandle,
    /// A `Done` response arrived though every write task already finished.
    WritesAlreadyComplete,
    /// A new task arrived with nothing scanned to compact.
    NothingScanned,
}

/// Index of the first entry of `s` keyed `jid`, or -1 if none is.
pub open spec fn job_index(s: Seq<(u128, CompactionJob)>, jid: u128) -> int
    decreases s.len(),
{
    if s.len() == 0 {
        -1
    } else if s[0].0 == jid {
        0
    } else {
        let r = job_index(s.drop_first(), jid);
        if r == -1 {
            -1
        } else {
            1 + r
        }
    }
}

/// A witness for the first entry keyed `jid` pins `job_index`.
pub proof fn lemma_job_index_at(s: Seq<(u128, CompactionJob)>, jid: u128, j: int)
    requires
        0 <= j < s.len(),
        s[j].0 == jid,
        forall|k: int| 0 <= k < j ==> s[k].0 != jid,
    ensures
        job_index(s, jid) == j,
    decreases s.len(),
{
    if j > 0 {
        let t = s.drop_first();
        assert(t[j - 1] == s[j]);
        assert forall|k: int| 0 <= k < j - 1 implies t[k].0 != jid by {
            assert(t[k] == s[k + 1]);
        }
        lemma_job_index_at(t, jid, j - 1);
    }
}

/// No entry keyed `jid`: `job_index` finds nothing.
pub proof fn lemma_job_index_none(s: Seq<(u128, CompactionJob)>, jid: u128)
    requires
        forall|k: int| 0 <= k < s.len() ==> s[k].0 != jid,
    ensures
        job_index(s, jid) == -1,
    decreases s.len(),
{
    if s.len() > 0 {
        let t = s.drop_first();
        assert forall|k: int| 0 <= k < t.len() implies t[k].0 != jid by {
            assert(t[k] == s[k + 1]);
        }
        lemma_job_index_none(t, jid);
    }
}

/// The orchestrator: owns the live compaction jobs and decides each step of
/// the scan → dedup → partition → write → flush pipeline.
pub struct CompactionManager {
    pub log: LogHandle,
    pub segment_manager: SegmentManagerHandle,
    pub compaction_jobs: Vec<(u128, CompactionJob)>,
}

impl CompactionManager {
    /// Every entry is keyed by its job's identifier and every job satisfies
    /// the job invariant.
    pub open spec fn wf(&self) -> bool {
        forall|k: int|
            0 <= k < self.compaction_jobs@.len() ==> (#[trigger] self.compaction_jobs@[k]).0
                == self.compaction_jobs@[k].1.id && self.compaction_jobs@[k].1.wf()
    }

    pub fn new(log: LogHandle, segment_manager: SegmentManagerHandle) -> (r: CompactionManager)
        ensures
            r.wf(),
            r.log == log,
            r.segment_manager == segment_manager,
            r.compaction_jobs@ == Seq::<(u128, CompactionJob)>::empty(),
    {
        CompactionManager { log, segment_manager, compaction_jobs: Vec::new() }
    }

    /// The manager's mailbox capacity.
    pub fn queue_size(&self) -> (r: usize)
        ensures
            r == 1000,
    {
        1000
    }

    /// Splits records into `num_partitions` contiguous chunks by ceiling
    /// division, keeping the input order.
    #[verifier::loop_isolation(false)]
    pub fn partition_records(&self, records: Vec<EmbeddingRecord>, num_partitions: i32) -> (result:
        Vec<Vec<EmbeddingRecord>>)
        requires
            records@.len() >= 1,
            num_partitions >= 1,
        ensures
            ({
                let len = records@.len() as int;
                let cs = (len - 1) / (num_partitions as int) + 1;
                &&& result@.len() >= 1
                &&& forall|c: int|
                    0 <= c < result@.len() ==> (#[trigger] result@[c])@ == records@.subrange(
                        c * cs,
                        if (c + 1) * cs <= len {
                            (c + 1) * cs
                        } else {
                            len
                        },
                    )
                &&& (result@.len() - 1) * cs < len <= result@.len() * cs
            }),
    {
        let len = records.len();
        let num = num_partitions as usize;
        proof {
            assert((len as int - 1) / (num as int) <= len as int - 1) by (nonlinear_arith)
                requires
                    len >= 1,
                    num >= 1,
            ;
        }
        let chunk_size = (len - 1) / num + 1;
        let ghost cs = chunk_size as int;
        let mut result: Vec<Vec<EmbeddingRecord>> = Vec::new();
        let mut start: usize = 0;
        let ghost mut c: int = 0;
        while start < len
            invariant
                chunk_size >= 1,
                cs == chunk_size as int,
                len == records@.len(),
                c == result@.len(),
                start <= len,
                start == c * cs || (start == len && len <= c * cs),
                c >= 1 ==> (c - 1) * cs < len,
                forall|c2: int|
                    0 <= c2 < result@.len() ==> (#[trigger] result@[c2])@ == records@.subrange(
                        c2 * cs,
                        if (c2 + 1) * cs <= len as int {
                            (c2 + 1) * cs
                        } else {
                            len as int
                        },
                    ),
            decreases len - start,
        {
            proof {
                assert(start == c * cs);
            }
            let end = if len - start > chunk_size {
                start + chunk_size
            } else {
                len
            };
            let mut chunk: Vec<EmbeddingRecord> = Vec::new();
            let mut j: usize = start;
            while j < end
                invariant
                    start <= j <= end,
                    chunk@ == records@.subrange(start as int, j as int),
                decreases end - j,
            {
                chunk.push(records[j].clone());
                proof {
                    assert(chunk@ =~= records@.subrange(start as int, j + 1));
                }
                j = j + 1;
            }
            result.push(chunk);
            proof {
                assert((c + 1) * cs == c * cs + cs) by (nonlinear_arith);
                assert(records@.subrange(start as int, end as int) == records@.subrange(
                    c * cs,
                    if (c + 1) * cs <= len as int {
                        (c + 1) * cs
                    } else {
                        len as int
                    },
                ));
                c = c + 1;
            }
            start = end;
        }
        proof {
            assert(start == len);
            assert(c >= 1) by (nonlinear_arith)
                requires
                    cs >= 1,
                    len as int >= 1,
                    len as int <= c * cs || len as int == c * cs,
                    c * cs >= len as int,
            ;
            assert((c - 1) * cs < len as int <= c * cs);
        }
        result
    }

    /// Handles a pulled task whose records have been scanned: deduplicates
    /// them, chunks them into write tasks, registers the job (status
    /// `Writing`), and returns the write tasks to dispatch.
    pub fn handle_new_task(&mut self, task: Task, scanned: Vec<EmbeddingRecord>) -> (r: Vec<
        WriteTask,
    >)
        requires
            old(self).wf(),
            scanned@.len() >= 1,
        ensures
            final(self).wf(),
            final(self).log == old(self).log,
            final(self).segment_manager == old(self).segment_manager,
            r@.len() == 1,
            r@[0].records@ == spec_dedup(scanned@),
            r@[0].task == task,
            r@[0].segment_manager == old(self).segment_manager,
            final(self).compaction_jobs@.len() == old(self).compaction_jobs@.len() + 1,
            forall|k: int|
                0 <= k < old(self).compaction_jobs@.len() ==> final(self).compaction_jobs@[k]
                    == old(self).compaction_jobs@[k],
            ({
                let entry = final(self).compaction_jobs@.last();
                let job = entry.1;
                &&& entry.0 == job.id
                &&& r@[0].job_id == job.id
                &&& job.task == task
                &&& job.status == CompactionStatus::Writing
                &&& job.num_write_tasks == 1
                &&& job.finished_write_tasks == 0
                &&& job.segment_manager == old(self).segment_manager
                &&& job.write_tasks@.len() == 1
                &&& job.write_tasks@[0].0 == r@[0].task_id
                &&& job.write_tasks@[0].1.task_id == r@[0].task_id
                &&& job.write_tasks@[0].1.records@ == spec_dedup(scanned@)
            }),
    {
        let num_write_tasks: i32 = 1;
        let mut compaction_job = CompactionJob::new(task.clone(), num_write_tasks, self.segment_manager);
        let job_id = compaction_job.get_job_id();
        compaction_job.status = CompactionStatus::Deduping;
        let records = dedup_records(&scanned);
        proof {
            lemma_spec_dedup_len(scanned@);
        }
        let mut partitioned_records = self.partition_records(records, num_write_tasks);
        proof {
            let len = spec_dedup(scanned@).len() as int;
            let cs = (len - 1) / 1int + 1;
            assert(cs == len);
            let rl = partitioned_records@.len() as int;
            assert((rl - 1) * len < len <= rl * len);
            assert(rl == 1) by (nonlinear_arith)
                requires
                    (rl - 1) * len < len,
                    len <= rl * len,
                    len >= 1,
            ;
            assert(partitioned_records@[0]@ == spec_dedup(scanned@).subrange(0, len));
            assert(spec_dedup(scanned@).subrange(0, len) =~= spec_dedup(scanned@));
        }
        let chunk = partitioned_records.remove(0);
        let write_task = WriteTask::new(job_id, task, chunk, self.segment_manager);
        let write_task_clone = write_task.clone();
        compaction_job.add_write_task(write_task_clone);
        compaction_job.status = CompactionStatus::Writing;
        let mut write_tasks: Vec<WriteTask> = Vec::new();
        write_tasks.push(write_task);
        self.compaction_jobs.push((job_id, compaction_job));
        write_tasks
    }

    /// Like `handle_new_task`, but rejects an empty scan instead of
    /// requiring the caller to rule it out.
    pub fn try_handle_new_task(&mut self, task: Task, scanned: Vec<EmbeddingRecord>) -> (r: Result<
        Vec<WriteTask>,
        ManagerError,
    >)
        requires
            old(self).wf(),
        ensures
            final(self).wf(),
            scanned@.len() == 0 ==> r == Result::<Vec<WriteTask>, ManagerError>::Err(
                ManagerError::NothingScanned,
            ) && *final(self) == *old(self),
            scanned@.len() >= 1 ==> (r matches Ok(ts) && ts@.len() == 1 && ts@[0].records@
                == spec_dedup(scanned@) && final(self).compaction_jobs@.len() == old(
                self).compaction_jobs@.len() + 1),
    {
        if scanned.len() == 0 {
            return Err(ManagerError::NothingScanned);
        }
        Ok(self.handle_new_task(task, scanned))
    }

    /// Finds the first live job keyed by `job_id`.
    #[verifier::loop_isolation(false)]
    fn find_job_position(&self, job_id: u128) -> (r: Option<usize>)
        ensures
            ({
                let fi = job_index(self.compaction_jobs@, job_id);
                match r {
                    Some(idx) => fi == idx && 0 <= fi < self.compaction_jobs@.len()
                        && self.compaction_jobs@[fi].0 == job_id,
                    None => fi == -1,
                }
            }),
    {
        let n = self.compaction_jobs.len();
        let mut j: usize = 0;
        while j < n
            invariant
                j <= n,
                forall|k: int| 0 <= k < j ==> self.compaction_jobs@[k].0 != job_id,
            decreases n - j,
        {
            let entry = &self.compaction_jobs[j];
            if entry.0 == job_id {
                proof {
                    lemma_job_index_at(self.compaction_jobs@, job_id, j as int);
                }
                return Some(j);
            }
            j = j + 1;
        }
        proof {
            lemma_job_index_none(self.compaction_jobs@, job_id);
        }
        None
    }

    /// Reacts to a write-task response:
    /// - `Running` books the returned handle;
    /// - `Done` counts the finished write; once the count reaches the job's
    ///   write-task total — exactly then — the job moves to `Flushing` and a
    ///   flush task is handed back for dispatch;
    /// - `Failed` and `Timeout` hand back the identical registered write
    ///   task — same task and job identifiers, same records — to
    ///   re-dispatch.
    ///
    /// A response that fits no live job or registered task is rejected and
    /// changes nothing.
    pub fn handle_write_task_response(&mut self, response: WriteTaskResponse) -> (r: Result<
        ManagerAction,
        ManagerError,
    >)
        requires
            old(self).wf(),
        ensures
            final(self).wf(),
            final(self).log == old(self).log,
            final(self).segment_manager == old(self).segment_manager,
            (r is Err) ==> final(self).compaction_jobs@ == old(self).compaction_jobs@,
            job_index(old(self).compaction_jobs@, response.response.job_id) == -1 <==> r
                == Result::<ManagerAction, ManagerError>::Err(ManagerError::UnknownJob),
            ({
                let fi = job_index(old(self).compaction_jobs@, response.response.job_id);
                fi >= 0 ==> {
                    let job = old(self).compaction_jobs@[fi].1;
                    &&& final(self).compaction_jobs@.len() == old(self).compaction_jobs@.len()
                    &&& forall|k: int|
                        0 <= k < old(self).compaction_jobs@.len() && k != fi ==> final(
                            self).compaction_jobs@[k] == old(self).compaction_jobs@[k]
                    &&& final(self).compaction_jobs@[fi].0 == old(self).compaction_jobs@[fi].0
                    &&& match response.response.status {
                        TaskStatus::Running => match response.response.result {
                            Some(h) => {
                                let job2 = final(self).compaction_jobs@[fi].1;
                                &&& r == Result::<ManagerAction, ManagerError>::Ok(
                                    ManagerAction::HandleRecorded,
                                )
                                &&& job2.task_handles@ == job.task_handles@.push(h)
                                &&& job2.id == job.id
                                &&& job2.task == job.task
                                &&& job2.status == job.status
                                &&& job2.finished_write_tasks == job.finished_write_tasks
                                &&& job2.num_write_tasks == job.num_write_tasks
                                &&& job2.write_tasks == job.write_tasks
                                &&& job2.segment_manager == job.segment_manager
                            },
                            None => r == Result::<ManagerAction, ManagerError>::Err(
                                ManagerError::MissingHandle,
                            ),
                        },
                        TaskStatus::Done => {
                            if job.finished_write_tasks < job.num_write_tasks {
                                let job2 = final(self).compaction_jobs@[fi].1;
                                &&& job2.finished_write_tasks == job.finished_write_tasks + 1
                                &&& job2.num_write_tasks == job.num_write_tasks
                                &&& job2.finished_write_tasks <= job2.num_write_tasks
                                &&& job2.id == job.id
                                &&& job2.task == job.task
                                &&& job2.write_tasks == job.write_tasks
                                &&& job2.task_handles == job.task_handles
                                &&& job2.segment_manager == job.segment_manager
                                &&& (job2.status == CompactionStatus::Flushing <==> job2.finished_write_tasks == job2.num_write_tasks)
                                &&& if job2.finished_write_tasks == job2.num_write_tasks {
                                    match r {
                                        Ok(a) => a matches ManagerAction::DispatchFlush(ft)
                                            && ft.job_id == response.response.job_id && ft.task
                                            == job.task && ft.segment_manager
                                            == job.segment_manager,
                                        Err(_) => false,
                                    }
                                } else {
                                    r == Result::<ManagerAction, ManagerError>::Ok(
                                        ManagerAction::WriteProgress,
                                    ) && job2.status == job.status
                                }
                            } else {
                                r == Result::<ManagerAction, ManagerError>::Err(
                                    ManagerError::WritesAlreadyComplete,
                                )
                            }
                        },
                        TaskStatus::Failed | TaskStatus::Timeout => {
                            let wi = write_task_index(
                                job.write_tasks@,
                                response.response.task_id,
                            );
                            &&& final(self).compaction_jobs@[fi].1 == job
                            &&& wi == -1 ==> r == Result::<ManagerAction, ManagerError>::Err(
                                ManagerError::UnknownWriteTask,
                            )
                            &&& wi >= 0 ==> match r {
                                Ok(a) => a matches ManagerAction::RedispatchWrite(wt)
                                    && wt.task_id == job.write_tasks@[wi].1.task_id && wt.task_id
                                    == response.response.task_id && wt.job_id
                                    == job.write_tasks@[wi].1.job_id && wt.job_id
                                    == response.response.job_id && wt.records@
                                    == job.write_tasks@[wi].1.records@ && wt.task
                                    == job.write_tasks@[wi].1.task && wt.segment_manager
                                    == job.write_tasks@[wi].1.segment_manager,
                                Err(_) => false,
                            }
                        },
                    }
                }
            }),
    {
        let task_id = response.response.task_id;
        let job_id = response.response.job_id;
        let idx = match self.find_job_position(job_id) {
            Some(idx) => idx,
            None => {
                return Err(ManagerError::UnknownJob);
            },
        };
        let ghost old_jobs = self.compaction_jobs@;
        let (key, mut job) = self.compaction_jobs.remove(idx);
        proof {
            assert(key == old_jobs[idx as int].0);
            assert(job == old_jobs[idx as int].1);
            assert(job.wf());
            assert(key == job_id);
        }
        let outcome: Result<ManagerAction, ManagerError> = match response.response.status {
            TaskStatus::Running => match response.response.result {
                Some(handle) => {
                    job.record_task_handle(handle);
                    Ok(ManagerAction::HandleRecorded)
                },
                None => Err(ManagerError::MissingHandle),
            },
            TaskStatus::Done => {
                if job.finished_write_tasks < job.num_write_tasks {
                    match job.complete_write_task() {
                        Some(flush_task) => Ok(ManagerAction::DispatchFlush(flush_task)),
                        None => Ok(ManagerAction::WriteProgress),
                    }
                } else {
                    Err(ManagerError::WritesAlreadyComplete)
                }
            },
            TaskStatus::Failed | TaskStatus::Timeout => {
                match job.find_write_task(task_id) {
                    Some(write_task) => {
                        let write_task_clone = write_task.clone();
                        proof {
                            let wi = write_task_index(job.write_tasks@, task_id);
                            assert(0 <= wi < job.write_tasks@.len());
                            assert(job.write_tasks@[wi].0 == task_id);
                            assert(job.write_tasks@[wi].1.task_id == task_id);
                            assert(job.write_tasks@[wi].1.job_id == job.id);
                            assert(job.id == job_id);
                            assert(write_task_clone.task_id == task_id);
                            assert(write_task_clone.records@ == job.write_tasks@[wi].1.records@);
                        }
                        Ok(ManagerAction::RedispatchWrite(write_task_clone))
                    },
                    None => Err(ManagerError::UnknownWriteTask),
                }
            },
        };
        self.compaction_jobs.insert(idx, (key, job));
        proof {
            assert(self.compaction_jobs@.len() == old_jobs.len());
            assert forall|k: int|
                0 <= k < old_jobs.len() && k != idx as int implies self.compaction_jobs@[k]
                    == old_jobs[k] by {}
            assert(self.compaction_jobs@[idx as int].0 == key);
            if outcome is Err {
                assert(self.compaction_jobs@ =~= old_jobs);
            }
            assert forall|k: int| 0 <= k < self.compaction_jobs@.len() implies (
            #[trigger] self.compaction_jobs@[k]).0 == self.compaction_jobs@[k].1.id
                && self.compaction_jobs@[k].1.wf() by {
                if k != idx as int {
                    assert(self.compaction_jobs@[k] == old_jobs[k]);
                }
            }
        }
        outcome
    }
}

} // verus!
