//! The scheduler: a queue of pending compaction task descriptors.
//!
//! Producers append tasks; the compaction consumer takes them one at a time,
//! non-blockingly, in arrival order. A stop flag supports orderly shutdown.
//! The code around the library shares one scheduler behind a lock; joining
//! on outstanding work is part of that plumbing, not of the queue itself.

use crate::types::Task;
use vstd::prelude::*;

verus! {

/// Why a one-shot job could not deliver a result.
#[derive(Clone, Copy, PartialEq, Eq, Structural, Debug)]
pub enum JobError {
    /// The worker had nothing to hand out, or went away before answering.
    WorkerGone,
    /// The job was cancelled before it produced its result.
    Cancelled,
}

/// A queue of pending compaction tasks with a stop/join lifecycle.
pub struct Scheduler {
    pub tasks: Vec<Task>,
    pub stopped: bool,
}

impl Scheduler {
    /// The pending tasks, oldest first.
    pub open spec fn pending(&self) -> Seq<Task> {
        self.tasks@
    }

    pub fn new() -> (r: Scheduler)
        ensures
            r.pending() == Seq::<Task>::empty(),
            !r.stopped,
    {
        Scheduler { tasks: Vec::new(), stopped: false }
    }

    /// Appends a task produced by the assignment logic.
    pub fn add_task(&mut self, task: Task)
        ensures
            final(self).pending() == old(self).pending().push(task),
            final(self).stopped == old(self).stopped,
    {
        self.tasks.push(task);
    }

    /// Non-blocking take: the oldest pending task, if any.
    pub fn take_task(&mut self) -> (r: Option<Task>)
        ensures
            old(self).pending().len() == 0 ==> (r is None) && final(self).pending() == old(
                self).pending(),
            old(self).pending().len() > 0 ==> r == Some(old(self).pending()[0]) && final(
                self).pending() == old(self).pending().drop_first(),
            final(self).stopped == old(self).stopped,
    {
        if self.tasks.len() == 0 {
            None
        } else {
            let t = self.tasks.remove(0);
            proof {
                assert(self.tasks@ =~= old(self).tasks@.drop_first());
            }
            Some(t)
        }
    }

    /// Marks the queue stopped; producers are expected to add nothing more.
    pub fn stop(&mut self)
        ensures
            final(self).pending() == old(self).pending(),
            final(self).stopped,
    {
        self.stopped = true;
    }
}

/// Asks the scheduler for the next available task; an empty scheduler is a
/// typed "worker gone" outcome, not a failure of the caller.
#[derive(Clone, Copy, Debug)]
pub struct PullTask {}

impl PullTask {
    pub fn new() -> (r: PullTask) {
        PullTask {}
    }

    /// The single unit of work: one non-blocking take.
    pub fn run(&self, scheduler: &mut Scheduler) -> (r: Option<Task>)
        ensures
            old(scheduler).pending().len() == 0 ==> (r is None) && final(scheduler).pending()
                == old(scheduler).pending(),
            old(scheduler).pending().len() > 0 ==> r == Some(old(scheduler).pending()[0]) && final(
                scheduler).pending() == old(scheduler).pending().drop_first(),
            final(scheduler).stopped == old(scheduler).stopped,
    {
        scheduler.take_task()
    }

    /// An empty scheduler yields a "worker gone" outcome the caller polls
    /// around; a pending task is taken and returned.
    pub fn run_task(&self, scheduler: &mut Scheduler) -> (r: Result<Task, JobError>)
        ensures
            old(scheduler).pending().len() == 0 ==> r == Result::<Task, JobError>::Err(
                JobError::WorkerGone,
            ) && final(scheduler).pending() == old(scheduler).pending(),
            old(scheduler).pending().len() > 0 ==> r == Result::<Task, JobError>::Ok(
                old(scheduler).pending()[0],
            ) && final(scheduler).pending() == old(scheduler).pending().drop_first(),
            final(scheduler).stopped == old(scheduler).stopped,
    {
        match self.run(scheduler) {
            Some(task) => Ok(task),
            None => Err(JobError::WorkerGone),
        }
    }
}

} // verus!
