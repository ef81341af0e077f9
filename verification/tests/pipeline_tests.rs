use compaction_core::dedup::dedup_records;
use compaction_core::job::CompactionStatus;
use compaction_core::manager::CompactionManager;
use compaction_core::manager::ManagerAction;
use compaction_core::manager::ManagerError;
use compaction_core::scheduler::JobError;
use compaction_core::scheduler::PullTask;
use compaction_core::scheduler::Scheduler;
use compaction_core::tasks::DedupTask;
use compaction_core::tasks::JobHandleRef;
use compaction_core::tasks::LogError;
use compaction_core::tasks::ScanTask;
use compaction_core::tasks::TaskResponse;
use compaction_core::tasks::TaskStatus;
use compaction_core::tasks::WriteTaskResponse;
use compaction_core::types::EmbeddingRecord;
use compaction_core::types::LogHandle;
use compaction_core::types::Operation;
use compaction_core::types::SegmentManagerHandle;
use compaction_core::types::Task;

fn rec(id: &str, seq: u64) -> EmbeddingRecord {
    EmbeddingRecord {
        id: id.to_string(),
        seq_id: seq,
        operation: Operation::Add,
        collection_id: 1,
    }
}

fn task() -> Task {
    Task { collection_id: 1, offset: 0, tenant_id: "tenant".to_string() }
}

fn manager() -> CompactionManager {
    CompactionManager::new(LogHandle { id: 1 }, SegmentManagerHandle { id: 1 })
}

#[test]
fn dedup_last_write_wins() {
    // dedup of [{id:"x",v:1},{id:"x",v:2}] keeps the later value
    let records = vec![rec("x", 1), rec("x", 2)];
    let out = dedup_records(&records);
    assert_eq!(out.len(), 1);
    assert_eq!(out[0].id, "x");
    assert_eq!(out[0].seq_id, 2);
}

#[test]
fn dedup_is_idempotent() {
    let records = vec![rec("a", 1), rec("b", 2), rec("a", 3), rec("c", 4), rec("b", 5)];
    let once = dedup_records(&records);
    let twice = dedup_records(&once);
    assert_eq!(once.len(), twice.len());
    for (x, y) in once.iter().zip(twice.iter()) {
        assert_eq!(x.id, y.id);
        assert_eq!(x.seq_id, y.seq_id);
    }
    let mut ids: Vec<String> = once.iter().map(|r| r.id.clone()).collect();
    ids.sort();
    assert_eq!(ids, vec!["a".to_string(), "b".to_string(), "c".to_string()]);
}

#[test]
fn dedup_task_runs_the_same_collapse() {
    let t = DedupTask::new(7, task(), vec![rec("x", 1), rec("x", 2)]);
    let out = t.run();
    assert_eq!(out.len(), 1);
    assert_eq!(out[0].seq_id, 2);
    let response = t.done(out);
    assert_eq!(response.response.job_id, 7);
    assert_eq!(response.response.status, TaskStatus::Done);
    assert_eq!(response.response.result.len(), 1);
}

#[test]
fn scan_outcome_swallows_read_errors() {
    let scan = ScanTask::new(7, task(), LogHandle { id: 1 });
    let ok = scan.outcome(Ok(vec![rec("x", 1)]));
    assert_eq!(ok.len(), 1);
    let failed = scan.outcome(Err(LogError::ReadFailed));
    assert_eq!(failed.len(), 0);
    let response = scan.done(failed);
    assert_eq!(response.response.status, TaskStatus::Done);
    assert_eq!(response.response.result.len(), 0);
}

#[test]
fn new_task_builds_one_writing_job() {
    let mut m = manager();
    let write_tasks = m.handle_new_task(task(), vec![rec("a", 1), rec("b", 2), rec("a", 3)]);
    assert_eq!(write_tasks.len(), 1);
    // deduplicated: "a" survives once, with its later value
    assert_eq!(write_tasks[0].records.len(), 2);
    assert_eq!(m.compaction_jobs.len(), 1);
    let job = &m.compaction_jobs[0].1;
    assert_eq!(job.status, CompactionStatus::Writing);
    assert_eq!(job.num_write_tasks, 1);
    assert_eq!(job.finished_write_tasks, 0);
    assert_eq!(write_tasks[0].job_id, job.id);
}

#[test]
fn empty_scan_is_rejected_not_compacted() {
    let mut m = manager();
    let r = m.try_handle_new_task(task(), Vec::new());
    assert_eq!(r.unwrap_err(), ManagerError::NothingScanned);
    assert_eq!(m.compaction_jobs.len(), 0);
}

fn response_for(job_id: u128, task_id: u128, status: TaskStatus) -> WriteTaskResponse {
    WriteTaskResponse {
        response: TaskResponse { task_id, job_id, status, result: None },
    }
}

#[test]
fn done_response_flushes_exactly_when_all_writes_finished() {
    let mut m = manager();
    let write_tasks = m.handle_new_task(task(), vec![rec("a", 1), rec("b", 2)]);
    let job_id = write_tasks[0].job_id;
    let task_id = write_tasks[0].task_id;

    let action = m
        .handle_write_task_response(response_for(job_id, task_id, TaskStatus::Done))
        .unwrap();
    match action {
        ManagerAction::DispatchFlush(flush) => {
            assert_eq!(flush.segment_manager, SegmentManagerHandle { id: 1 });
            assert_eq!(flush.task.collection_id, 1);
            // the flush is tagged with the job it completes, and its
            // response envelope carries the same identifiers
            assert_eq!(flush.job_id, job_id);
            let envelope = flush.done(());
            assert_eq!(envelope.response.job_id, job_id);
            assert_eq!(envelope.response.task_id, flush.task_id);
            assert_eq!(envelope.response.status, TaskStatus::Done);
        }
        _ => panic!("expected a flush dispatch"),
    }
    let job = &m.compaction_jobs[0].1;
    assert_eq!(job.status, CompactionStatus::Flushing);
    assert_eq!(job.finished_write_tasks, job.num_write_tasks);

    // a second Done cannot push the counter past the total
    let again = m.handle_write_task_response(response_for(job_id, task_id, TaskStatus::Done));
    assert_eq!(again.unwrap_err(), ManagerError::WritesAlreadyComplete);
    let job = &m.compaction_jobs[0].1;
    assert_eq!(job.finished_write_tasks, job.num_write_tasks);
}

#[test]
fn failed_response_redispatches_the_identical_write_task() {
    let mut m = manager();
    let write_tasks = m.handle_new_task(task(), vec![rec("a", 1), rec("b", 2)]);
    let job_id = write_tasks[0].job_id;
    let task_id = write_tasks[0].task_id;

    let action = m
        .handle_write_task_response(response_for(job_id, task_id, TaskStatus::Failed))
        .unwrap();
    match action {
        ManagerAction::RedispatchWrite(wt) => {
            assert_eq!(wt.task_id, task_id);
            assert_eq!(wt.job_id, job_id);
            assert_eq!(wt.records.len(), write_tasks[0].records.len());
            for (x, y) in wt.records.iter().zip(write_tasks[0].records.iter()) {
                assert_eq!(x.id, y.id);
                assert_eq!(x.seq_id, y.seq_id);
            }
        }
        _ => panic!("expected a re-dispatch"),
    }

    // a timeout is retried the same way
    let action = m
        .handle_write_task_response(response_for(job_id, task_id, TaskStatus::Timeout))
        .unwrap();
    assert!(matches!(action, ManagerAction::RedispatchWrite(_)));
}

#[test]
fn running_response_books_the_handle() {
    let mut m = manager();
    let write_tasks = m.handle_new_task(task(), vec![rec("a", 1)]);
    let job_id = write_tasks[0].job_id;
    let task_id = write_tasks[0].task_id;
    let response = WriteTaskResponse {
        response: TaskResponse {
            task_id,
            job_id,
            status: TaskStatus::Running,
            result: Some(JobHandleRef { id: 9 }),
        },
    };
    let action = m.handle_write_task_response(response).unwrap();
    assert!(matches!(action, ManagerAction::HandleRecorded));
    assert_eq!(m.compaction_jobs[0].1.task_handles.len(), 1);

    // a running report without a handle is rejected
    let bare = m.handle_write_task_response(response_for(job_id, task_id, TaskStatus::Running));
    assert_eq!(bare.unwrap_err(), ManagerError::MissingHandle);
}

#[test]
fn responses_for_unknown_jobs_and_tasks_are_rejected() {
    let mut m = manager();
    let r = m.handle_write_task_response(response_for(42, 43, TaskStatus::Done));
    assert_eq!(r.unwrap_err(), ManagerError::UnknownJob);

    let write_tasks = m.handle_new_task(task(), vec![rec("a", 1)]);
    let job_id = write_tasks[0].job_id;
    let r = m.handle_write_task_response(response_for(job_id, 43, TaskStatus::Failed));
    assert_eq!(r.unwrap_err(), ManagerError::UnknownWriteTask);
}

#[test]
fn empty_scheduler_yields_no_task_and_advances_nothing() {
    let mut scheduler = Scheduler::new();
    let mut m = manager();
    let pull = PullTask::new();
    let r = pull.run_task(&mut scheduler);
    assert_eq!(r.unwrap_err(), JobError::WorkerGone);
    assert_eq!(m.compaction_jobs.len(), 0);
    // the loop simply polls again; a task added later is handed out
    scheduler.add_task(task());
    let got = pull.run_task(&mut scheduler).unwrap();
    assert_eq!(got.collection_id, 1);
    let write_tasks = m.handle_new_task(got, vec![rec("a", 1)]);
    assert_eq!(write_tasks.len(), 1);
}

#[test]
fn scheduler_hands_tasks_out_in_arrival_order() {
    let mut scheduler = Scheduler::new();
    scheduler.add_task(Task { collection_id: 1, offset: 0, tenant_id: "t".to_string() });
    scheduler.add_task(Task { collection_id: 2, offset: 5, tenant_id: "t".to_string() });
    assert_eq!(scheduler.take_task().unwrap().collection_id, 1);
    assert_eq!(scheduler.take_task().unwrap().collection_id, 2);
    assert!(scheduler.take_task().is_none());
    scheduler.stop();
    assert!(scheduler.stopped);
}

#[test]
fn chunking_splits_by_ceiling_division() {
    let m = manager();
    let records = vec![rec("a", 1), rec("b", 2), rec("c", 3), rec("d", 4), rec("e", 5)];
    let chunks = m.partition_records(records, 2);
    assert_eq!(chunks.len(), 2);
    assert_eq!(chunks[0].len(), 3);
    assert_eq!(chunks[1].len(), 2);
    assert_eq!(chunks[0][0].id, "a");
    assert_eq!(chunks[1][0].id, "d");
}
