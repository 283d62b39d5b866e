//! The life of an indexing job: pending, running, done or failed.

use vstd::prelude::*;
use vstd::string::*;

use crate::clock::{is_timestamp, now_rfc3339};
use crate::error::{bare_message, error_code, error_text, Error};
use crate::ids::{is_ulid, new_ulid};
use crate::text::optional_text;
use crate::types::{IndexJob, IndexJobScope, IndexJobState, IndexJobStats};

verus! {

/// A pending job created at `now`.
pub fn pending_job(id: String, store_id: String, scope: IndexJobScope, now: String) -> (r: IndexJob)
    ensures
        r == (IndexJob {
            id,
            store_id,
            scope,
            state: IndexJobState::Pending,
            stats: IndexJobStats {
                docs_seen: 0,
                docs_indexed: 0,
                docs_skipped: 0,
                docs_deleted: 0,
                chunks_written: 0,
                unsupported_format_count: 0,
                error_count: 0,
            },
            error: None,
            error_code: None,
            created_at: now,
            started_at: None,
            completed_at: None,
        }),
{
    IndexJob {
        id,
        store_id,
        scope,
        state: IndexJobState::Pending,
        stats: IndexJobStats::default(),
        error: None,
        error_code: None,
        created_at: now,
        started_at: None,
        completed_at: None,
    }
}

/// Creates a pending job with a fresh id.
pub fn create_index_job(store_id: &str, scope: IndexJobScope) -> (r: IndexJob)
    ensures
        is_ulid(r.id@),
        r.store_id@ == store_id@,
        r.scope == scope,
        r.state == IndexJobState::Pending,
        r.stats.docs_seen == 0 && r.stats.docs_indexed == 0 && r.stats.docs_skipped == 0
            && r.stats.docs_deleted == 0 && r.stats.chunks_written == 0
            && r.stats.unsupported_format_count == 0 && r.stats.error_count == 0,
        r.error is None,
        r.error_code is None,
        is_timestamp(r.created_at@),
        r.started_at is None,
        r.completed_at is None,
{
    pending_job(new_ulid(), store_id.to_owned(), scope, now_rfc3339())
}

/// `job` runs since `now`.
pub fn mark_running(job: &mut IndexJob, now: String)
    ensures
        *final(job) == (IndexJob {
            state: IndexJobState::Running,
            started_at: Some(now),
            ..*old(job)
        }),
{
    job.state = IndexJobState::Running;
    job.started_at = Some(now);
}

/// `job` runs from now on.
pub fn start_index_job(job: &mut IndexJob)
    ensures
        final(job).started_at matches Some(t) && is_timestamp(t@) && *final(job) == (IndexJob {
            state: IndexJobState::Running,
            started_at: Some(t),
            ..*old(job)
        }),
{
    mark_running(job, now_rfc3339());
}

/// `job` ended at `now` with `stats`.
pub fn mark_done(job: &mut IndexJob, stats: IndexJobStats, now: String)
    ensures
        *final(job) == (IndexJob {
            state: IndexJobState::Done,
            stats,
            completed_at: Some(now),
            ..*old(job)
        }),
{
    job.state = IndexJobState::Done;
    job.stats = stats;
    job.completed_at = Some(now);
}

/// `job` ends now with `stats`.
pub fn complete_index_job(job: &mut IndexJob, stats: IndexJobStats)
    ensures
        final(job).completed_at matches Some(t) && is_timestamp(t@) && *final(job) == (IndexJob {
            state: IndexJobState::Done,
            stats,
            completed_at: Some(t),
            ..*old(job)
        }),
{
    mark_done(job, stats, now_rfc3339());
}

/// `job` failed at `now`.
pub fn mark_failed(job: &mut IndexJob, error: String, error_code: Option<String>, now: String)
    ensures
        *final(job) == (IndexJob {
            state: IndexJobState::Failed,
            error: Some(error),
            error_code,
            completed_at: Some(now),
            ..*old(job)
        }),
{
    job.state = IndexJobState::Failed;
    job.error = Some(error);
    job.error_code = error_code;
    job.completed_at = Some(now);
}

/// `job` fails now, for a reason that has no code.
pub fn fail_index_job(job: &mut IndexJob, error: String)
    ensures
        final(job).completed_at matches Some(t) && is_timestamp(t@) && *final(job) == (IndexJob {
            state: IndexJobState::Failed,
            error: Some(error),
            error_code: None,
            completed_at: Some(t),
            ..*old(job)
        }),
{
    mark_failed(job, error, None, now_rfc3339());
}

/// What a job keeps of an error: its bare message, so that the error can be
/// rebuilt from it and its code, or its full text where there is none.
pub open spec fn kept_message(error: Error) -> Seq<char> {
    match bare_message(error@) {
        Some(m) => m,
        None => error_text(error@),
    }
}

/// `job` fails now with `error`: it keeps the message and the code.
pub fn fail_index_job_with_error(job: &mut IndexJob, error: &Error)
    ensures
        optional_text(final(job).error) == Some(kept_message(*error)),
        optional_text(final(job).error_code) == Some(error_code(error@)),
        final(job).completed_at matches Some(t) && is_timestamp(t@) && *final(job) == (IndexJob {
            state: IndexJobState::Failed,
            error: final(job).error,
            error_code: final(job).error_code,
            completed_at: Some(t),
            ..*old(job)
        }),
{
    let message = match error.raw_message() {
        Some(m) => m.to_owned(),
        None => error.to_string(),
    };
    let code = error.code().to_owned();
    mark_failed(job, message, Some(code), now_rfc3339());
}

/// The error of a failed job comes back from what the job keeps of it, where
/// its message is one text or fixed.
pub proof fn law_job_error_is_rebuilt(error: Error)
    requires
        !(error is Internal || error is UnsupportedFormat || error is ExtractionFailed),
    ensures
        crate::error::decoded(error_code(error@), kept_message(error)) == Some(error@),
{
    crate::error::law_code_round_trip(error@, kept_message(error));
}

} // verus!
