//! What ingestors are given and report.

use localdb_core::ingestor::{Enumeration, IngestResult, IngestSource, SkipReason};
use localdb_core::json::Json;
use localdb_core::types::IngestorKind;

#[test]
fn ingest_source_creation() {
    let source = IngestSource {
        policy_version: "test-policy".to_string(),
        source_id: "src-1".to_string(),
        store_id: "store-1".to_string(),
        ingestor_kind: IngestorKind::File,
        config: Json::Object(vec![(
            "root".to_string(),
            Json::Text("/tmp/docs".to_string()),
        )]),
    };
    assert_eq!(source.ingestor_kind, IngestorKind::File);
}

#[test]
fn skip_reason_error_is_distinct_from_other() {
    let err = SkipReason::Error("boom".to_string());
    let other = SkipReason::Other("boom".to_string());
    assert_ne!(err, other);
    assert_eq!(err, SkipReason::Error("boom".to_string()));
}

#[test]
fn ingest_result_default() {
    let result = IngestResult::default();
    assert_eq!(result.resources_produced, 0);
    assert_eq!(result.resources_skipped, 0);
    assert_eq!(result.errors, 0);

    assert_eq!(result.enumeration, Enumeration::Complete);
}
