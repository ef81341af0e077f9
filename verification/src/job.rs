//! The state record for one compaction attempt.
//!
//! A `CompactionJob` owns its identifier, the originating task, the map from
//! write-task identifier to write task (for retry lookup), the handles of
//! outstanding work, a status, and the two completion counters. The manager
//! is the record's sole writer.

use crate::fresh_id;
use crate::tasks::FlushTask;
use crate::tasks::JobHandleRef;
use crate::tasks::WriteTask;
use crate::types::SegmentManagerHandle;
use crate::types::Task;
use vstd::prelude::*;

verus! {

/// Ordered lifecycle of a compaction attempt; `Failed` is reachable from
/// any non-terminal state.
#[derive(Clone, Copy, PartialEq, Eq, Structural, Debug)]
pub enum CompactionStatus {
    Scanning,
    Deduping,
    Writing,
    Flushing,
    Done,
    Failed,
}

/// Index of the first entry of `s` keyed `tid`, or -1 if none is.
pub open spec fn write_task_index(s: Seq<(u128, WriteTask)>, tid: u128) -> int
    decreases s.len(),
{
    if s.len() == 0 {
        -1
    } else if s[0].0 == tid {
        0
    } else {
        let r = write_task_index(s.drop_first(), tid);
        if r == -1 {
            -1
        } else {
            1 + r
        }
    }
}

/// A witness for the first entry keyed `tid` pins `write_task_index`.
pub proof fn lemma_write_task_index_at(s: Seq<(u128, WriteTask)>, tid: u128, j: int)
    requires
        0 <= j < s.len(),
        s[j].0 == tid,
        forall|k: int| 0 <= k < j ==> s[k].0 != tid,
    ensures
        write_task_index(s, tid) == j,
    decreases s.len(),
{
    if j > 0 {
        let t = s.drop_first();
        assert(t[j - 1] == s[j]);
        assert forall|k: int| 0 <= k < j - 1 implies t[k].0 != tid by {
            assert(t[k] == s[k + 1]);
        }
        lemma_write_task_index_at(t, tid, j - 1);
    }
}

/// No entry keyed `tid`: `write_task_index` finds nothing.
pub proof fn lemma_write_task_index_none(s: Seq<(u128, WriteTask)>, tid: u128)
    requires
        forall|k: int| 0 <= k < s.len() ==> s[k].0 != tid,
    ensures
        write_task_index(s, tid) == -1,
    decreases s.len(),
{
    if s.len() > 0 {
        let t = s.drop_first();
        assert forall|k: int| 0 <= k < t.len() implies t[k].0 != tid by {
            assert(t[k] == s[k + 1]);
        }
        lemma_write_task_index_none(t, tid);
    }
}

/// The state record for one compaction attempt.
pub struct CompactionJob {
    pub id: u128,
    pub task: Task,
    pub write_tasks: Vec<(u128, WriteTask)>,
    pub task_handles: Vec<JobHandleRef>,
    pub status: CompactionStatus,
    pub num_write_tasks: i32,
    pub finished_write_tasks: i32,
    pub segment_manager: SegmentManagerHandle,
}

impl CompactionJob {
    /// Every stored write task is keyed by its own identifier and belongs to
    /// this job, and no identifier is stored twice.
    pub open spec fn write_tasks_wf(&self) -> bool {
        &&& forall|k: int|
            0 <= k < self.write_tasks@.len() ==> (#[trigger] self.write_tasks@[k]).0
                == self.write_tasks@[k].1.task_id && self.write_tasks@[k].1.job_id == self.id
        &&& forall|k1: int, k2: int|
            0 <= k1 < self.write_tasks@.len() && 0 <= k2 < self.write_tasks@.len() && k1 != k2
                ==> (#[trigger] self.write_tasks@[k1]).0 != (#[trigger] self.write_tasks@[k2]).0
    }

    /// The job's invariant: the completed-write counter never exceeds the
    /// write-task count, and the job flushes only once every write task has
    /// finished.
    pub open spec fn wf(&self) -> bool {
        &&& 0 <= self.finished_write_tasks <= self.num_write_tasks
        &&& self.status == CompactionStatus::Flushing ==> self.finished_write_tasks
            == self.num_write_tasks
        &&& self.write_tasks_wf()
    }

    /// A fresh job for `task`, about to scan.
    pub fn new(task: Task, num_write_tasks: i32, segment_manager: SegmentManagerHandle) -> (r:
        CompactionJob)
        requires
            num_write_tasks >= 0,
        ensures
            r.wf(),
            r.task == task,
            r.status == CompactionStatus::Scanning,
            r.num_write_tasks == num_write_tasks,
            r.finished_write_tasks == 0,
            r.write_tasks@ == Seq::<(u128, WriteTask)>::empty(),
            r.task_handles@ == Seq::<JobHandleRef>::empty(),
            r.segment_manager == segment_manager,
    {
        CompactionJob {
            id: fresh_id(),
            task,
            write_tasks: Vec::new(),
            task_handles: Vec::new(),
            status: CompactionStatus::Scanning,
            num_write_tasks,
            finished_write_tasks: 0,
            segment_manager,
        }
    }

    pub fn get_job_id(&self) -> (r: u128)
        ensures
            r == self.id,
    {
        self.id
    }

    /// Registers a write task under its identifier; a task already
    /// registered under that identifier is replaced.
    #[verifier::loop_isolation(false)]
    pub fn add_write_task(&mut self, write_task: WriteTask)
        requires
            old(self).wf(),
            write_task.job_id == old(self).id,
        ensures
            final(self).wf(),
            final(self).id == old(self).id,
            final(self).task == old(self).task,
            final(self).status == old(self).status,
            final(self).num_write_tasks == old(self).num_write_tasks,
            final(self).finished_write_tasks == old(self).finished_write_tasks,
            final(self).task_handles == old(self).task_handles,
            final(self).segment_manager == old(self).segment_manager,
            ({
                let fi = write_task_index(old(self).write_tasks@, write_task.task_id);
                if fi >= 0 {
                    final(self).write_tasks@ == old(self).write_tasks@.update(
                        fi,
                        (write_task.task_id, write_task),
                    )
                } else {
                    final(self).write_tasks@ == old(self).write_tasks@.push(
                        (write_task.task_id, write_task),
                    )
                }
            }),
    {
        let tid = write_task.task_id;
        let n = self.write_tasks.len();
        let mut j: usize = 0;
        let mut target: usize = n;
        while j < n
            invariant
                j <= n,
                target <= n,
                target == n ==> forall|k: int| 0 <= k < j ==> self.write_tasks@[k].0 != tid,
                target < n ==> self.write_tasks@[target as int].0 == tid && forall|k: int|
                    0 <= k < target ==> self.write_tasks@[k].0 != tid,
            decreases n - j,
        {
            if target == n {
                let entry = &self.write_tasks[j];
                if entry.0 == tid {
                    target = j;
                }
            }
            j = j + 1;
        }
        let ghost pre = self.write_tasks@;
        if target < n {
            proof {
                lemma_write_task_index_at(pre, tid, target as int);
            }
            self.write_tasks[target] = (tid, write_task);
        } else {
            proof {
                lemma_write_task_index_none(pre, tid);
            }
            self.write_tasks.push((tid, write_task));
        }
        proof {
            assert forall|k1: int, k2: int|
                0 <= k1 < self.write_tasks@.len() && 0 <= k2 < self.write_tasks@.len() && k1
                    != k2 implies (#[trigger] self.write_tasks@[k1]).0 != (
            #[trigger] self.write_tasks@[k2]).0 by {
                if k1 < pre.len() && k2 < pre.len() {
                    if k1 != target as int && k2 != target as int {
                        assert(self.write_tasks@[k1] == pre[k1]);
                        assert(self.write_tasks@[k2] == pre[k2]);
                    } else if k1 == target as int {
                        assert(self.write_tasks@[k2] == pre[k2]);
                        assert(pre[k2].0 != pre[target as int].0);
                    } else {
                        assert(self.write_tasks@[k1] == pre[k1]);
                        assert(pre[k1].0 != pre[target as int].0);
                    }
                } else if k1 >= pre.len() {
                    assert(self.write_tasks@[k2] == pre[k2]);
                } else {
                    assert(self.write_tasks@[k1] == pre[k1]);
                }
            }
        }
    }

    /// First stored write task with this identifier, for retry lookup.
    #[verifier::loop_isolation(false)]
    pub fn find_write_task(&self, task_id: u128) -> (r: Option<&WriteTask>)
        requires
            self.wf(),
        ensures
            ({
                let fi = write_task_index(self.write_tasks@, task_id);
                match r {
                    Some(wt) => 0 <= fi < self.write_tasks@.len() && self.write_tasks@[fi].0
                        == task_id && *wt == self.write_tasks@[fi].1,
                    None => fi == -1,
                }
            }),
    {
        let n = self.write_tasks.len();
        let mut j: usize = 0;
        while j < n
            invariant
                j <= n,
                forall|k: int| 0 <= k < j ==> self.write_tasks@[k].0 != task_id,
            decreases n - j,
        {
            let entry = &self.write_tasks[j];
            if entry.0 == task_id {
                proof {
                    lemma_write_task_index_at(self.write_tasks@, task_id, j as int);
                }
                return Some(&entry.1);
            }
            j = j + 1;
        }
        proof {
            lemma_write_task_index_none(self.write_tasks@, task_id);
        }
        None
    }

    /// Books the handle of a running write task, for later tracking.
    pub fn record_task_handle(&mut self, handle: JobHandleRef)
        requires
            old(self).wf(),
        ensures
            final(self).wf(),
            final(self).task_handles@ == old(self).task_handles@.push(handle),
            final(self).id == old(self).id,
            final(self).task == old(self).task,
            final(self).status == old(self).status,
            final(self).num_write_tasks == old(self).num_write_tasks,
            final(self).finished_write_tasks == old(self).finished_write_tasks,
            final(self).write_tasks == old(self).write_tasks,
            final(self).segment_manager == old(self).segment_manager,
    {
        self.task_handles.push(handle);
    }

    /// The law the completion counters obey: a well-formed job never counts
    /// more finished writes than it has write tasks, and it is flushing only
    /// when the two counters are equal. `complete_write_task` is the sole
    /// step that moves the counter, and its contract moves the job to
    /// `Flushing` exactly when the counter reaches the total.
    pub proof fn lemma_write_counters_bounded(self)
        requires
            self.wf(),
        ensures
            self.finished_write_tasks <= self.num_write_tasks,
            self.status == CompactionStatus::Flushing ==> self.finished_write_tasks
                == self.num_write_tasks,
    {
    }

    /// Counts one write task as finished; once every write task has
    /// finished, the job moves to `Flushing` — exactly then — and the flush
    /// task to dispatch, tagged with this job's identifier and carrying its
    /// task and segment-manager handle, is returned.
    pub fn complete_write_task(&mut self) -> (r: Option<FlushTask>)
        requires
            old(self).wf(),
            old(self).finished_write_tasks < old(self).num_write_tasks,
        ensures
            final(self).wf(),
            final(self).finished_write_tasks == old(self).finished_write_tasks + 1,
            final(self).id == old(self).id,
            final(self).task == old(self).task,
            final(self).num_write_tasks == old(self).num_write_tasks,
            final(self).write_tasks == old(self).write_tasks,
            final(self).task_handles == old(self).task_handles,
            final(self).segment_manager == old(self).segment_manager,
            old(self).status != CompactionStatus::Flushing,
            (final(self).status == CompactionStatus::Flushing) <==> (final(
                self).finished_write_tasks == final(self).num_write_tasks),
            final(self).finished_write_tasks < final(self).num_write_tasks ==> final(self).status
                == old(self).status && (r is None),
            final(self).finished_write_tasks == final(self).num_write_tasks ==> (match r {
                Some(ft) => ft.job_id == old(self).id && ft.task == old(self).task
                    && ft.segment_manager == old(self).segment_manager,
                None => false,
            }),
    {
        self.finished_write_tasks = self.finished_write_tasks + 1;
        if self.finished_write_tasks == self.num_write_tasks {
            self.status = CompactionStatus::Flushing;
            Some(FlushTask::new(self.id, self.task.clone(), self.segment_manager))
        } else {
            None
        }
    }
}

} // verus!
