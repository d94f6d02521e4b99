use nucleus::engine::IngestBody;
use nucleus::id::{DocumentId, JobId};
use nucleus::jobs::{retry_status, run_outcome, stays_queued, Job, JobBody, JobKind, JobStatus};

#[test]
fn job_lifecycle() {
    let mut job = Job::new(JobId::new(1), JobKind::DeleteDocument { document_id: DocumentId::new(9) }, 100);
    assert_eq!(job.status, JobStatus::Pending);
    assert_eq!(job.attempts, 0);
    job.claim(200);
    assert_eq!(job.status, JobStatus::Running);
    assert_eq!(job.attempts, 1);
    assert_eq!(job.updated_at, 200);
    assert!(job.requeue(300));
    assert_eq!(job.status, JobStatus::Pending);
    assert!(!job.requeue(400));
    assert_eq!(job.updated_at, 300);
    job.finish(JobStatus::Done, None, 500);
    assert!(job.is_purgeable(501));
    assert!(!job.is_purgeable(500));
    assert_eq!(job.created_at, 100);
}

#[test]
fn retries_until_the_cap() {
    assert_eq!(retry_status(1, 3), JobStatus::Pending);
    assert_eq!(retry_status(3, 3), JobStatus::Failed);
    let (s, e) = run_outcome(Err("boom".to_string()), 2, 3);
    assert_eq!(s, JobStatus::Pending);
    assert_eq!(e.as_deref(), Some("boom"));
    let (s, e) = run_outcome(Ok(()), 3, 3);
    assert_eq!(s, JobStatus::Done);
    assert!(e.is_none());
    assert!(stays_queued(JobStatus::Pending));
    assert!(!stays_queued(JobStatus::Failed));
}

#[test]
fn pending_jobs_are_not_purged() {
    let job = Job::new(JobId::new(2), JobKind::DeleteDocument { document_id: DocumentId::new(1) }, 0);
    assert!(!job.is_purgeable(i64::MAX));
}

#[test]
fn job_bodies_become_ingest_bodies() {
    assert!(matches!(JobBody::Text("t".to_string()).into_ingest(), IngestBody::Text(t) if t == "t"));
    assert!(matches!(
        JobBody::Chunks(vec!["a".to_string()]).into_ingest(),
        IngestBody::Chunks(c) if c == vec!["a".to_string()]
    ));
}
