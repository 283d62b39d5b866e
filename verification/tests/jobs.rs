//! The life of indexing jobs.

use localdb_core::error::Error;
use localdb_core::ids::{new_ulid, ulid_from_parts};
use localdb_core::jobs::{
    complete_index_job, create_index_job, fail_index_job, fail_index_job_with_error,
    start_index_job,
};
use localdb_core::types::{IndexJobScope, IndexJobState, IndexJobStats};

#[test]
fn create_index_job_starts_pending() {
    let job = create_index_job("store-1", IndexJobScope::Store);
    assert_eq!(job.state, IndexJobState::Pending);
    assert!(job.started_at.is_none());
    assert!(job.completed_at.is_none());
    assert!(job.error.is_none());
}

#[test]
fn start_index_job_sets_running() {
    let mut job = create_index_job("store-1", IndexJobScope::Store);
    start_index_job(&mut job);
    assert_eq!(job.state, IndexJobState::Running);
    assert!(job.started_at.is_some());
}

#[test]
fn complete_index_job_sets_done() {
    let mut job = create_index_job("store-1", IndexJobScope::Store);
    start_index_job(&mut job);
    let stats = IndexJobStats {
        docs_seen: 5,
        docs_indexed: 3,
        docs_deleted: 1,
        chunks_written: 12,
        unsupported_format_count: 1,
        error_count: 0,
        ..Default::default()
    };
    complete_index_job(&mut job, stats.clone());
    assert_eq!(job.state, IndexJobState::Done);
    assert!(job.completed_at.is_some());
    assert_eq!(job.stats.docs_seen, 5);
    assert_eq!(job.stats.docs_indexed, 3);
    assert_eq!(job.stats.chunks_written, 12);
}

#[test]
fn fail_index_job_sets_failed() {
    let mut job = create_index_job("store-1", IndexJobScope::Store);
    start_index_job(&mut job);
    fail_index_job(&mut job, "something went wrong".to_string());
    assert_eq!(job.state, IndexJobState::Failed);
    assert_eq!(job.error.as_deref(), Some("something went wrong"));
    assert_eq!(
        job.error_code, None,
        "a synthetic queue-level failure never had a typed error to carry a code from"
    );
    assert!(job.completed_at.is_some());
}

#[test]
fn fail_index_job_with_error_carries_the_typed_errors_code_and_message() {
    let mut job = create_index_job("store-1", IndexJobScope::Store);
    start_index_job(&mut job);
    let err = Error::InvalidConfig {
        message: "unconfigured embedder provider".to_string(),
    };
    fail_index_job_with_error(&mut job, &err);
    assert_eq!(job.state, IndexJobState::Failed);

    assert_eq!(job.error.as_deref(), Some("unconfigured embedder provider"));
    assert_eq!(job.error_code.as_deref(), Some("invalid_config"));
    assert!(job.completed_at.is_some());
}

#[test]
fn fail_index_job_with_error_falls_back_to_display_for_non_reconstructible_variants() {
    let mut job = create_index_job("store-1", IndexJobScope::Store);
    start_index_job(&mut job);
    let err = Error::Internal {
        message: "bug".to_string(),
        correlation_id: "corr-1".to_string(),
    };
    fail_index_job_with_error(&mut job, &err);
    assert_eq!(job.error.as_deref(), Some(err.to_string().as_str()));
    assert_eq!(job.error_code.as_deref(), Some("internal"));
}

#[test]
fn fail_index_job_with_error_on_a_still_pending_job_leaves_started_at_none() {
    let mut job = create_index_job("store-1", IndexJobScope::Store);
    assert_eq!(job.state, IndexJobState::Pending);
    assert!(job.started_at.is_none());

    fail_index_job_with_error(&mut job, &Error::JobCancelled);

    assert_eq!(job.state, IndexJobState::Failed);
    assert_eq!(job.error_code.as_deref(), Some("job_cancelled"));
    assert!(
        job.started_at.is_none(),
        "a job cancelled before it ever started must not gain a started_at"
    );
    assert!(
        job.completed_at.is_some(),
        "the job is still terminal and must record when that happened"
    );
}

#[test]
fn a_failed_job_gives_its_error_back() {
    let err = Error::ModelMissing {
        message: "no model".to_string(),
    };
    let mut job = create_index_job("store-1", IndexJobScope::Store);
    fail_index_job_with_error(&mut job, &err);
    let back = Error::from_code(job.error_code.as_deref().unwrap(), job.error.unwrap());
    assert_eq!(back, Some(err));
}

#[test]
fn ulids_are_sortable_and_fresh() {
    assert_eq!(ulid_from_parts(0, 0, 0), "00000000000000000000000000");
    assert_eq!(
        ulid_from_parts(281_474_976_710_655, 65_535, u64::MAX),
        "7ZZZZZZZZZZZZZZZZZZZZZZZZZ"
    );
    assert_eq!(ulid_from_parts(1_469_918_176_385, 0, 31), "01ARYZ6S41000000000000000Z");
    assert!(ulid_from_parts(5, 65_535, u64::MAX) < ulid_from_parts(6, 0, 0));
    let a = new_ulid();
    let b = new_ulid();
    assert_eq!(a.len(), 26);
    assert_ne!(a, b);
}
