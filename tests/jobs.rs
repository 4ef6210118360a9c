use anicargo::jobs::{
    cleanup_jobs, complete_job, enqueue_job, fail_job, fetch_next_job, get_job_status,
    requeue_stuck_jobs, retry_delay_secs, JobQueue, JobState,
};

#[test]
fn duplicate_index_enqueue_returns_same_job() {
    let mut q = JobQueue::new();
    let a = enqueue_job(&mut q, "index", "{}".to_string(), 3, Some("index"), 1000);
    let b = enqueue_job(&mut q, "index", "{}".to_string(), 3, Some("index"), 1000);
    assert_eq!(a, b);
    assert_eq!(q.jobs.len(), 1);
    let c = enqueue_job(&mut q, "index", "{}".to_string(), 3, None, 1000);
    assert_ne!(a, c);
    assert_eq!(q.jobs.len(), 2);
    let d = enqueue_job(&mut q, "hls", "{}".to_string(), 3, Some("index"), 1000);
    assert_ne!(a, d);
}

#[test]
fn dedup_slot_frees_once_job_finishes() {
    let mut q = JobQueue::new();
    let a = enqueue_job(&mut q, "hls", "{}".to_string(), 3, Some("m1"), 0);
    let job = fetch_next_job(&mut q, "api-1-0", 0).unwrap();
    assert_eq!(job.id, a);
    complete_job(&mut q, a, Some("{\"media_id\":\"m1\"}".to_string()), 5);
    let b = enqueue_job(&mut q, "hls", "{}".to_string(), 3, Some("m1"), 10);
    assert_ne!(a, b);
    // the finished job cannot come back while the new one holds the key
    assert!(fail_job(&mut q, a, "late", 11).is_err());
    let st = get_job_status(&q, a).unwrap();
    assert_eq!(st.status, JobState::Done);
    assert_eq!(st.result, Some("{\"media_id\":\"m1\"}".to_string()));
}

#[test]
fn worker_lease_and_retry_sequence() {
    let mut q = JobQueue::new();
    let id = enqueue_job(&mut q, "boom", "{}".to_string(), 3, None, 0);
    let j = fetch_next_job(&mut q, "w", 0).unwrap();
    assert_eq!((j.id, j.attempts, j.max_attempts), (id, 1, 3));
    assert_eq!(get_job_status(&q, id).unwrap().status, JobState::Running);
    fail_job(&mut q, id, "boom", 0).unwrap();
    let st = get_job_status(&q, id).unwrap();
    assert_eq!((st.status, st.attempts), (JobState::Retry, 1));
    assert_eq!(q.jobs[0].scheduled_at, 30);
    assert!(fetch_next_job(&mut q, "w", 29).is_none());
    let j = fetch_next_job(&mut q, "w", 30).unwrap();
    assert_eq!(j.attempts, 2);
    fail_job(&mut q, id, "boom", 30).unwrap();
    assert_eq!(q.jobs[0].scheduled_at, 90);
    let j = fetch_next_job(&mut q, "w", 90).unwrap();
    assert_eq!(j.attempts, 3);
    fail_job(&mut q, id, "boom", 90).unwrap();
    let st = get_job_status(&q, id).unwrap();
    assert_eq!((st.status, st.attempts), (JobState::Failed, 3));
    assert_eq!(st.last_error, Some("boom".to_string()));
    assert!(fetch_next_job(&mut q, "w", 10_000).is_none());
    assert_eq!(retry_delay_secs(2), 60);
}

#[test]
fn fetch_takes_oldest_eligible_job() {
    let mut q = JobQueue::new();
    let a = enqueue_job(&mut q, "index", "{}".to_string(), 3, None, 0);
    let b = enqueue_job(&mut q, "auto-match", "{}".to_string(), 3, None, 1);
    assert_eq!(fetch_next_job(&mut q, "w1", 5).unwrap().id, a);
    assert_eq!(fetch_next_job(&mut q, "w2", 5).unwrap().id, b);
    assert!(fetch_next_job(&mut q, "w3", 5).is_none());
    assert_eq!(q.jobs[0].locked_by, Some("w1".to_string()));
    let zero = enqueue_job(&mut q, "x", "{}".to_string(), 0, None, 5);
    assert!(fetch_next_job(&mut q, "w", 6).is_none());
    assert_eq!(get_job_status(&q, zero).unwrap().status, JobState::Queued);
}

#[test]
fn stuck_job_recovery() {
    let mut q = JobQueue::new();
    let id = enqueue_job(&mut q, "hls", "{}".to_string(), 3, None, 0);
    fetch_next_job(&mut q, "w", 0).unwrap();
    assert_eq!(requeue_stuck_jobs(&mut q, 3600, 3600), (0, 0));
    assert_eq!(requeue_stuck_jobs(&mut q, 3600, 7200), (1, 0));
    let st = get_job_status(&q, id).unwrap();
    assert_eq!(st.status, JobState::Retry);
    assert_eq!(st.last_error, Some("timeout".to_string()));
    assert_eq!(q.jobs[0].scheduled_at, 7200);
    assert_eq!(q.jobs[0].locked_at, None);
}

#[test]
fn stuck_job_out_of_attempts_fails() {
    let mut q = JobQueue::new();
    let id = enqueue_job(&mut q, "hls", "{}".to_string(), 1, None, 0);
    fetch_next_job(&mut q, "w", 0).unwrap();
    assert_eq!(requeue_stuck_jobs(&mut q, 0, 99_999), (0, 0));
    assert_eq!(requeue_stuck_jobs(&mut q, 60, 61), (0, 1));
    let st = get_job_status(&q, id).unwrap();
    assert_eq!((st.status, st.attempts, st.max_attempts), (JobState::Failed, 1, 1));
}

#[test]
fn retention_sweep_removes_old_finished_jobs() {
    let mut q = JobQueue::new();
    let a = enqueue_job(&mut q, "a", "{}".to_string(), 3, None, 0);
    let b = enqueue_job(&mut q, "b", "{}".to_string(), 3, None, 0);
    let c = enqueue_job(&mut q, "c", "{}".to_string(), 3, None, 0);
    complete_job(&mut q, a, None, 0);
    complete_job(&mut q, b, None, 7000);
    assert_eq!(cleanup_jobs(&mut q, 0, 1_000_000), 0);
    assert_eq!(cleanup_jobs(&mut q, 2, 7201), 1);
    assert!(get_job_status(&q, a).is_none());
    assert!(get_job_status(&q, b).is_some());
    assert!(get_job_status(&q, c).is_some());
    assert_eq!(JobState::Retry.name(), "retry");
}

#[test]
fn lease_follows_creation_time() {
    let mut q = JobQueue::new();
    let late = enqueue_job(&mut q, "a", "{}".to_string(), 3, None, 50);
    let early = enqueue_job(&mut q, "b", "{}".to_string(), 3, None, 10);
    assert_eq!(fetch_next_job(&mut q, "w", 100).unwrap().id, early);
    assert_eq!(fetch_next_job(&mut q, "w", 100).unwrap().id, late);
}
