//! The index of documents.

use localdb_core::document_index::{DocumentIndex, DocumentRecord, UriSet};

#[test]
fn document_index_empty() {
    let idx = DocumentIndex::new();
    assert!(idx.is_empty());
    assert_eq!(idx.len(), 0);
}

#[test]
fn document_index_upsert_and_get() {
    let mut idx = DocumentIndex::new();
    let rec = DocumentRecord {
        uri: "file:///test.md".to_string(),
        resource_id: "doc-id-1".to_string(),
        source_id: "src-1".to_string(),
        content_hash: "hash-1".to_string(),
        policy_version: "v1".to_string(),
    };
    idx.upsert(rec.clone());
    let found = idx.get("file:///test.md").unwrap();
    assert_eq!(found.resource_id, "doc-id-1");
}

#[test]
fn document_index_remove() {
    let mut idx = DocumentIndex::new();
    let rec = DocumentRecord {
        uri: "file:///test.md".to_string(),
        resource_id: "doc-id-1".to_string(),
        source_id: "src-1".to_string(),
        content_hash: "hash-1".to_string(),
        policy_version: "v1".to_string(),
    };
    idx.upsert(rec);
    let removed = idx.remove("file:///test.md");
    assert!(removed.is_some());
    assert!(idx.is_empty());
}

fn record(uri: &str, hash: &str) -> DocumentRecord {
    DocumentRecord {
        uri: uri.to_string(),
        resource_id: format!("res-{hash}"),
        source_id: "src-1".to_string(),
        content_hash: hash.to_string(),
        policy_version: "p".to_string(),
    }
}

#[test]
fn from_records_keeps_the_last_of_each_uri() {
    let index = DocumentIndex::from_records(vec![
        record("file:///a.md", "1"),
        record("file:///b.md", "2"),
        record("file:///a.md", "3"),
    ]);
    assert_eq!(index.len(), 2);
    assert_eq!(index.get("file:///a.md").unwrap().content_hash, "3");
    let mut uris = index.uris();
    uris.sort();
    assert_eq!(uris, vec!["file:///a.md", "file:///b.md"]);
}

#[test]
fn removal_keeps_the_others_reachable() {
    let mut index = DocumentIndex::default();
    for i in 0..50 {
        index.upsert(record(&format!("u{i}"), &format!("h{i}")));
    }
    for i in (0..50).step_by(3) {
        assert_eq!(
            index.remove(&format!("u{i}")).unwrap().content_hash,
            format!("h{i}")
        );
    }
    assert!(index.remove("u0").is_none());
    for i in 0..50 {
        let found = index.get(&format!("u{i}")).map(|r| r.content_hash.clone());
        if i % 3 == 0 {
            assert_eq!(found, None);
        } else {
            assert_eq!(found, Some(format!("h{i}")));
        }
    }
    assert_eq!(index.len(), 33);
    assert!(!index.is_empty());
}

#[test]
fn uri_sets_list_their_members_once() {
    let mut set = UriSet::new();
    set.insert("b");
    set.insert("a");
    set.insert("b");
    assert!(set.contains("a"));
    assert!(!set.contains("c"));
    assert_eq!(set.list(), &vec!["b".to_string(), "a".to_string()]);
}

#[test]
fn from_records_deduplicates_by_uri() {
    let idx = DocumentIndex::from_records(vec![
        record("file:///a.md", "hash1"),
        record("file:///b.md", "hash2"),
    ]);
    assert_eq!(idx.len(), 2);
    assert!(idx.get("file:///a.md").is_some());
    assert!(idx.get("file:///b.md").is_some());
}
