use compaction_core::data_chunk::DataChunk;
use compaction_core::job::CompactionJob;
use compaction_core::job::CompactionStatus;
use compaction_core::tasks::JobHandleRef;
use compaction_core::tasks::TaskResponse;
use compaction_core::tasks::TaskStatus;
use compaction_core::tasks::WriteTask;
use compaction_core::tasks::WriteTaskResponse;
use compaction_core::types::EmbeddingRecord;
use compaction_core::types::Operation;
use compaction_core::types::SegmentManagerHandle;
use compaction_core::types::Task;

fn task() -> Task {
    Task { collection_id: 1, offset: 0, tenant_id: "t".to_string() }
}

fn rec(id: &str, seq: u64) -> EmbeddingRecord {
    EmbeddingRecord { id: id.to_string(), seq_id: seq, operation: Operation::Add, collection_id: 1 }
}

#[test]
fn fresh_job_is_about_to_scan() {
    let job = CompactionJob::new(task(), 2, SegmentManagerHandle { id: 3 });
    assert_eq!(job.status, CompactionStatus::Scanning);
    assert_eq!(job.num_write_tasks, 2);
    assert_eq!(job.finished_write_tasks, 0);
    assert!(job.write_tasks.is_empty());
    assert_eq!(job.get_job_id(), job.id);
}

#[test]
fn write_tasks_are_registered_by_their_own_identifier() {
    let mut job = CompactionJob::new(task(), 2, SegmentManagerHandle { id: 3 });
    let wt1 = WriteTask::new(job.id, task(), vec![rec("a", 1)], SegmentManagerHandle { id: 3 });
    let wt2 = WriteTask::new(job.id, task(), vec![rec("b", 2)], SegmentManagerHandle { id: 3 });
    let id1 = wt1.get_id();
    let id2 = wt2.get_id();
    job.add_write_task(wt1);
    job.add_write_task(wt2);
    let found = job.find_write_task(id1).unwrap();
    assert_eq!(found.task_id, id1);
    assert_eq!(found.records[0].id, "a");
    let found = job.find_write_task(id2).unwrap();
    assert_eq!(found.records[0].id, "b");

    // re-registering under the same identifier replaces the task
    let wt1b = WriteTask {
        task_id: id1,
        job_id: job.id,
        task: task(),
        records: vec![rec("c", 3)],
        segment_manager: SegmentManagerHandle { id: 3 },
    };
    job.add_write_task(wt1b);
    assert_eq!(job.write_tasks.len(), 2);
    assert_eq!(job.find_write_task(id1).unwrap().records[0].id, "c");
}

#[test]
fn completion_counts_up_to_the_total_then_flushes() {
    let mut job = CompactionJob::new(task(), 2, SegmentManagerHandle { id: 3 });
    job.status = CompactionStatus::Writing;
    let first = job.complete_write_task();
    assert!(first.is_none());
    assert_eq!(job.finished_write_tasks, 1);
    assert_eq!(job.status, CompactionStatus::Writing);
    let second = job.complete_write_task().unwrap();
    assert_eq!(job.finished_write_tasks, 2);
    assert_eq!(job.status, CompactionStatus::Flushing);
    assert_eq!(second.segment_manager, SegmentManagerHandle { id: 3 });
    assert!(job.finished_write_tasks <= job.num_write_tasks);
}

#[test]
fn handles_of_running_tasks_are_tracked() {
    let mut job = CompactionJob::new(task(), 1, SegmentManagerHandle { id: 3 });
    job.record_task_handle(JobHandleRef { id: 4 });
    job.record_task_handle(JobHandleRef { id: 5 });
    assert_eq!(job.task_handles, vec![JobHandleRef { id: 4 }, JobHandleRef { id: 5 }]);
}

#[test]
fn write_task_responses_compare_by_job_and_status() {
    let a = WriteTaskResponse {
        response: TaskResponse { task_id: 1, job_id: 9, status: TaskStatus::Done, result: None },
    };
    let b = WriteTaskResponse {
        response: TaskResponse { task_id: 2, job_id: 9, status: TaskStatus::Done, result: None },
    };
    let c = WriteTaskResponse {
        response: TaskResponse { task_id: 1, job_id: 9, status: TaskStatus::Failed, result: None },
    };
    assert!(a == b);
    assert!(a != c);
}

#[test]
fn data_chunk_masks_count_only_visible_records() {
    let chunk = DataChunk::new(vec![rec("a", 1), rec("b", 2), rec("c", 3)]);
    assert_eq!(chunk.total_len(), 3);
    assert_eq!(chunk.len(), 3);
    let mut view = chunk.view_with_visibility(vec![true, false, true]);
    assert_eq!(view.total_len(), 3);
    assert_eq!(view.len(), 2);
    assert!(view.is_visible(0));
    assert!(!view.is_visible(1));
    assert_eq!(view.get_record(1).id, "b");
    view.set_visibility(vec![false, false, false]);
    assert_eq!(view.len(), 0);
}
