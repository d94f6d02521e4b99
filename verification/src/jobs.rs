//! Background jobs: what a job is and how its lifecycle moves. A job is
//! created `Pending`, claimed (`Running`, one more attempt), and finished
//! `Done`, back to `Pending` for a retry, or `Failed` once its attempts reach
//! the cap. Jobs left `Running` by a crash are requeued at startup, and
//! terminal jobs are purged after a retention period.

use vstd::prelude::*;

use crate::engine::IngestBody;
use crate::id::{DocumentId, JobId};

verus! {

/// The body stored inside an ingest job.
#[derive(Debug)]
pub enum JobBody {
    Text(String),
    Chunks(Vec<String>),
}

impl JobBody {
    /// The ingest body this job body stands for.
    pub fn into_ingest(self) -> (r: IngestBody)
        ensures
            match self {
                JobBody::Text(t) => r == IngestBody::Text(t),
                JobBody::Chunks(c) => r == IngestBody::Chunks(c),
            },
    {
        match self {
            JobBody::Text(t) => IngestBody::Text(t),
            JobBody::Chunks(c) => IngestBody::Chunks(c),
        }
    }
}

/// What a job does.
#[derive(Debug)]
pub enum JobKind {
    /// Chunk, embed and index the body for an already-created document.
    Ingest { document_id: DocumentId, body: JobBody },
    /// Delete a document and its chunks.
    DeleteDocument { document_id: DocumentId },
}

/// Lifecycle of a job.
#[derive(Debug, Clone, Copy, PartialEq, Eq, Structural)]
pub enum JobStatus {
    Pending,
    Running,
    Done,
    Failed,
}

/// A unit of background work.
#[derive(Debug)]
pub struct Job {
    pub id: JobId,
    pub kind: JobKind,
    pub status: JobStatus,
    pub attempts: u32,
    pub error: Option<String>,
    pub created_at: i64,
    pub updated_at: i64,
}

/// Whether a job in this status is done with, one way or the other.
pub open spec fn is_terminal(s: JobStatus) -> bool {
    s == JobStatus::Done || s == JobStatus::Failed
}

/// The status a job gets after a failed run: `Failed` once its attempts have
/// reached the cap, `Pending` (retry) before.
pub open spec fn retry_spec(attempts: u32, max_attempts: u32) -> JobStatus {
    if attempts >= max_attempts { JobStatus::Failed } else { JobStatus::Pending }
}

/// The status after a failed run (see `retry_spec`).
pub fn retry_status(attempts: u32, max_attempts: u32) -> (r: JobStatus)
    ensures r == retry_spec(attempts, max_attempts),
{
    if attempts >= max_attempts { JobStatus::Failed } else { JobStatus::Pending }
}

/// How a run ends: `Done` with no error on success; on failure the retry
/// status with the error's message kept.
pub fn run_outcome(result: Result<(), String>, attempts: u32, max_attempts: u32) -> (r: (JobStatus, Option<String>))
    ensures
        match result {
            Ok(()) => r.0 == JobStatus::Done && r.1 is None,
            Err(m) => r.0 == retry_spec(attempts, max_attempts) && r.1 == Some(m),
        },
{
    match result {
        Ok(()) => (JobStatus::Done, None),
        Err(m) => (retry_status(attempts, max_attempts), Some(m)),
    }
}

/// Whether a job finished with `status` stays in the pending queue: only a
/// retry does.
pub fn stays_queued(status: JobStatus) -> (r: bool)
    ensures r == (status == JobStatus::Pending),
{
    match status {
        JobStatus::Pending => true,
        _ => false,
    }
}

impl Job {
    /// A new job: pending, no attempts, no error, created and updated `now`.
    pub fn new(id: JobId, kind: JobKind, now: i64) -> (r: Self)
        ensures
            r.id == id,
            r.kind == kind,
            r.status == JobStatus::Pending,
            r.attempts == 0,
            r.error is None,
            r.created_at == now,
            r.updated_at == now,
    {
        Job { id, kind, status: JobStatus::Pending, attempts: 0, error: None, created_at: now, updated_at: now }
    }

    /// Claim the job for a worker: it is running and has used one more attempt.
    pub fn claim(&mut self, now: i64)
        requires old(self).attempts < u32::MAX,
        ensures
            final(self).status == JobStatus::Running,
            final(self).attempts == old(self).attempts + 1,
            final(self).updated_at == now,
            final(self).id == old(self).id,
            final(self).kind == old(self).kind,
            final(self).error == old(self).error,
            final(self).created_at == old(self).created_at,
    {
        self.status = JobStatus::Running;
        self.attempts = self.attempts + 1;
        self.updated_at = now;
    }

    /// Set the job's terminal (or retry) status and error.
    pub fn finish(&mut self, status: JobStatus, error: Option<String>, now: i64)
        ensures
            final(self).status == status,
            final(self).error == error,
            final(self).updated_at == now,
            final(self).id == old(self).id,
            final(self).kind == old(self).kind,
            final(self).attempts == old(self).attempts,
            final(self).created_at == old(self).created_at,
    {
        self.status = status;
        self.error = error;
        self.updated_at = now;
    }

    /// Crash recovery: a job left running goes back to pending (returns
    /// whether it did); any other job is left as it is.
    pub fn requeue(&mut self, now: i64) -> (r: bool)
        ensures
            r == (old(self).status == JobStatus::Running),
            r ==> final(self).status == JobStatus::Pending && final(self).updated_at == now,
            !r ==> final(self).status == old(self).status && final(self).updated_at == old(self).updated_at,
            final(self).id == old(self).id,
            final(self).kind == old(self).kind,
            final(self).attempts == old(self).attempts,
            final(self).error == old(self).error,
            final(self).created_at == old(self).created_at,
    {
        if self.status == JobStatus::Running {
            self.status = JobStatus::Pending;
            self.updated_at = now;
            true
        } else {
            false
        }
    }

    /// Whether the retention sweep deletes this job: it is terminal and was
    /// last updated before `cutoff_ms`.
    pub fn is_purgeable(&self, cutoff_ms: i64) -> (r: bool)
        ensures r == (is_terminal(self.status) && self.updated_at < cutoff_ms),
    {
        (self.status == JobStatus::Done || self.status == JobStatus::Failed) && self.updated_at < cutoff_ms
    }
}

/// A job that keeps failing is retried until its claims reach the cap, then
/// fails for good: after the claim that brings its attempts to `max_attempts`
/// (or beyond), a failed run leaves it `Failed` and out of the queue; before
/// that, a failed run puts it back in the queue.
pub proof fn lemma_retry_until_cap(attempts: u32, max_attempts: u32)
    ensures
        attempts >= max_attempts ==> retry_spec(attempts, max_attempts) == JobStatus::Failed
            && is_terminal(retry_spec(attempts, max_attempts)),
        attempts < max_attempts ==> retry_spec(attempts, max_attempts) == JobStatus::Pending
            && !is_terminal(retry_spec(attempts, max_attempts)),
{
}

} // verus!
