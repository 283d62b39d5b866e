//! Reading documents back.

use localdb_core::block::{Block, BlockKind};
use localdb_core::documents::{
    get_document_detail, get_document_detail_scoped, lookup_scope, reconstruct_document_text,
    DocumentContent, DocumentDetail, DocumentInfo,
};
use localdb_core::error::Error;
use localdb_core::metadata::Metadata;
use localdb_core::types::{ChunkRecord, Span};

fn make_document_info(id: &str, store_id: &str, uri: &str) -> DocumentInfo {
    DocumentInfo {
        store_id: store_id.to_string(),
        id: id.to_string(),
        source_id: "src-1".to_string(),
        ingestor_kind: "path".to_string(),
        uri: uri.to_string(),
        title: None,
        mime: None,
        content_hash: "hash".to_string(),
        fetched_at: "2026-01-01T00:00:00Z".to_string(),
        origin_store: store_id.to_string(),
        policy_version: "v1".to_string(),
        metadata: Metadata::default(),
    }
}

fn make_chunk(id: &str, resource_id: &str, store_id: &str, text: &str) -> ChunkRecord {
    ChunkRecord {
        id: id.to_string(),
        resource_id: resource_id.to_string(),
        store_id: store_id.to_string(),
        text: text.to_string(),
        span: Span::new(0, text.len()),
        heading_path: vec![],
        embedding: vec![],
        policy_version: "v1".to_string(),
        fetched_at: "2026-01-01T00:00:00Z".to_string(),
        content_hash: "hash".to_string(),
        origin_store: store_id.to_string(),
        source_id: "src-1".to_string(),
        ingestor_kind: "path".to_string(),
        mime: None,
        uri: "file:///doc.md".to_string(),
        metadata: Metadata::default(),
        block_seq: 0,
        seq_in_block: 0,
        block_kind: None,
        page: None,
        window_block_seqs: vec![],
    }
}

fn make_block(seq: u32, text: &str) -> Block {
    Block {
        seq,
        kind: BlockKind::Text,
        text: text.to_string(),
        location: None,
    }
}

#[test]
fn reconstruct_document_text_empty_chunks_and_blocks_is_empty_string() {
    assert_eq!(reconstruct_document_text(&[], &[]), "");
}

#[test]
fn reconstruct_document_text_chunks_only_joins_with_newline() {
    let chunks = vec![
        make_chunk("c1", "doc-1", "store-a", "alpha"),
        make_chunk("c2", "doc-1", "store-a", "beta"),
    ];
    assert_eq!(reconstruct_document_text(&chunks, &[]), "alpha\nbeta");
}

#[test]
fn reconstruct_document_text_blocks_present_ignores_chunks() {
    let chunks = vec![make_chunk("c1", "doc-1", "store-a", "chunk text")];
    let blocks = vec![make_block(0, "block one"), make_block(1, "block two")];
    assert_eq!(
        reconstruct_document_text(&chunks, &blocks),
        "block one\n\nblock two"
    );
}

#[test]
fn get_document_detail_without_text_leaves_text_none() {
    let info = make_document_info("doc-1", "store-a", "file:///a.md");
    let detail = get_document_detail("doc-1", Some(info), None).unwrap();
    assert_eq!(detail.info.id, "doc-1");
    assert!(detail.text.is_none());
    assert_eq!(detail.chunk_count, None);
}

#[test]
fn get_document_detail_with_text_populates_chunk_count() {
    let info = make_document_info("doc-1", "store-a", "file:///a.md");
    let content = DocumentContent {
        chunks: vec![
            make_chunk("chunk-1", "doc-1", "store-a", "chunk one"),
            make_chunk("chunk-2", "doc-1", "store-a", "chunk two"),
            make_chunk("chunk-3", "doc-1", "store-a", "chunk three"),
        ],
        blocks: vec![],
    };
    let detail = get_document_detail("doc-1", Some(info), Some(&content)).unwrap();
    assert_eq!(detail.chunk_count, Some(3));
    assert_eq!(
        detail.text.as_deref(),
        Some("chunk one\nchunk two\nchunk three")
    );
}

#[test]
fn get_document_detail_with_text_prefers_blocks_over_chunks() {
    let info = make_document_info("doc-1", "store-a", "file:///a.md");
    let content = DocumentContent {
        chunks: vec![
            make_chunk("chunk-1", "doc-1", "store-a", "chunk one"),
            make_chunk("chunk-2", "doc-1", "store-a", "chunk two"),
        ],
        blocks: vec![make_block(0, "first block"), make_block(1, "second block")],
    };
    let detail = get_document_detail("doc-1", Some(info), Some(&content)).unwrap();
    assert_eq!(detail.text.as_deref(), Some("first block\n\nsecond block"));
}

#[test]
fn get_document_detail_with_text_falls_back_to_chunks_when_no_blocks() {
    let info = make_document_info("doc-1", "store-a", "file:///a.md");
    let content = DocumentContent {
        chunks: vec![
            make_chunk("chunk-1", "doc-1", "store-a", "chunk one"),
            make_chunk("chunk-2", "doc-1", "store-a", "chunk two"),
        ],
        blocks: vec![],
    };
    let detail = get_document_detail("doc-1", Some(info), Some(&content)).unwrap();
    assert_eq!(detail.text.as_deref(), Some("chunk one\nchunk two"));
}

/// A backend that looks a document up, in one store or in all of them.
fn find_document(
    documents: &[DocumentInfo],
    doc_id: &str,
    store_id: Option<&str>,
) -> Result<Option<DocumentInfo>, Error> {
    let found: Vec<&DocumentInfo> = documents
        .iter()
        .filter(|d| d.id == doc_id && store_id.map_or(true, |s| d.store_id == s))
        .collect();
    if found.len() > 1 {
        return Err(Error::InvalidRequest {
            message: format!("document '{doc_id}' exists in several stores"),
        });
    }
    Ok(found.first().map(|d| (*d).clone()))
}

fn detail_of(
    documents: &[DocumentInfo],
    doc_id: &str,
    store_id: Option<&str>,
) -> Result<DocumentDetail, Error> {
    get_document_detail(doc_id, find_document(documents, doc_id, store_id)?, None)
}

fn scoped_detail_of(
    documents: &[DocumentInfo],
    doc_id: &str,
    allowed: &[&str],
) -> Result<DocumentDetail, Error> {
    let allowed: Vec<String> = allowed.iter().map(|s| s.to_string()).collect();
    let looked_up = detail_of(documents, doc_id, lookup_scope(&allowed));
    get_document_detail_scoped(doc_id, &allowed, looked_up)
}

fn shared() -> Vec<DocumentInfo> {
    vec![
        make_document_info("doc-shared", "store-a", "file:///a.md"),
        make_document_info("doc-shared", "store-b", "file:///b.md"),
    ]
}

#[test]
fn get_document_detail_store_scoped_disambiguates() {
    let detail = detail_of(&shared(), "doc-shared", Some("store-b")).unwrap();
    assert_eq!(detail.info.store_id, "store-b");
}

#[test]
fn get_document_detail_not_found_propagates() {
    assert_eq!(
        detail_of(&[], "missing", None).unwrap_err(),
        Error::ResourceNotFound {
            id: "missing".to_string()
        }
    );
}

#[test]
fn scoped_empty_allowlist_is_unscoped_and_keeps_ambiguity_error() {
    let err = scoped_detail_of(&shared(), "doc-shared", &[]).unwrap_err();
    assert!(matches!(err, Error::InvalidRequest { .. }));
}

#[test]
fn scoped_single_id_is_sql_scoped_even_when_ambiguous_elsewhere() {
    let detail = scoped_detail_of(&shared(), "doc-shared", &["store-a"]).unwrap();
    assert_eq!(detail.info.store_id, "store-a");
}

#[test]
fn scoped_many_accepts_a_document_inside_the_allowed_set() {
    let documents = [make_document_info("doc-1", "store-a", "file:///a.md")];
    let detail = scoped_detail_of(&documents, "doc-1", &["store-a", "store-b"]).unwrap();
    assert_eq!(detail.info.store_id, "store-a");
}

#[test]
fn scoped_many_rejects_a_document_outside_the_allowed_set() {
    let documents = [make_document_info("doc-1", "store-c", "file:///c.md")];
    assert_eq!(
        scoped_detail_of(&documents, "doc-1", &["store-a", "store-b"]).unwrap_err(),
        Error::ResourceNotFound {
            id: "doc-1".to_string()
        }
    );
}

#[test]
fn scoped_not_found_propagates_for_every_arity() {
    for allowed in [vec![], vec!["store-a"], vec!["store-a", "store-b"]] {
        assert_eq!(
            scoped_detail_of(&[], "missing", &allowed).unwrap_err(),
            Error::ResourceNotFound {
                id: "missing".to_string()
            }
        );
    }
}

#[test]
fn a_document_that_is_not_found_is_named() {
    let err = get_document_detail("doc-x", None, None).unwrap_err();
    assert_eq!(
        err,
        Error::ResourceNotFound {
            id: "doc-x".to_string()
        }
    );
}

#[test]
fn scopes_of_no_one_and_several_stores() {
    let one = vec!["store-a".to_string()];
    let two = vec!["store-a".to_string(), "store-b".to_string()];
    assert_eq!(lookup_scope(&[]), None);
    assert_eq!(lookup_scope(&one), Some("store-a"));
    assert_eq!(lookup_scope(&two), None);
    let look = |store: &str| {
        get_document_detail(
            "doc-1",
            Some(make_document_info("doc-1", store, "file:///a.md")),
            None,
        )
    };
    assert!(get_document_detail_scoped("doc-1", &[], look("store-c")).is_ok());
    assert!(get_document_detail_scoped("doc-1", &two, look("store-b")).is_ok());
    assert_eq!(
        get_document_detail_scoped("doc-1", &two, look("store-c")).unwrap_err(),
        Error::ResourceNotFound {
            id: "doc-1".to_string()
        }
    );
    let failed = Err(Error::DaemonUnreachable);
    assert_eq!(
        get_document_detail_scoped("doc-1", &two, failed).unwrap_err(),
        Error::DaemonUnreachable
    );
}
