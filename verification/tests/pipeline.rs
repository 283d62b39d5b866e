//! Ingestion runs against a store, an embedder and an ingestor that are scripted.

use std::cell::{Cell, RefCell};
use std::collections::BTreeMap;

use localdb_core::block::{Block, BlockKind, BlockLocation};
use localdb_core::chunker::ChunkerConfig;
use localdb_core::document_index::{DocumentIndex, DocumentRecord};
use localdb_core::enumeration::{enumerate_path_source, DirEntry, DirNode};
use localdb_core::error::Error;
use localdb_core::ids::{content_hash, new_ulid};
use localdb_core::indexing::{document_chunks, index_resource, plan_chunking, IndexPlan};
use localdb_core::ingestor::{Enumeration, SkipReason};
use localdb_core::metadata::{DocumentMetadata, DublinCoreMetadata, Metadata};
use localdb_core::pipeline::{
    source_location, DeletionPolicy, IndexOutcome, IngestionConfig, PipelineCallback, ResourceStep,
};
use localdb_core::progress::{DocOutcome, IngestionResult, ProgressEvent};
use localdb_core::removals::Removals;
use localdb_core::types::{
    ChunkOutput, ChunkRecord, IngestorKind, Resource, Source, SourceKind, SourceSpec, Span,
};
use localdb_core::uri::Uri;

const STORE: &str = "store-1";

/// Keeps chunks by resource, and can be told to fail its next write.
struct FakeStore {
    chunks: RefCell<BTreeMap<String, Vec<ChunkRecord>>>,
    deletes: RefCell<Vec<String>>,
    upserts: RefCell<Vec<Option<String>>>,
    fail_next_upsert: Cell<bool>,
}

impl FakeStore {
    fn new() -> Self {
        Self {
            chunks: RefCell::new(BTreeMap::new()),
            deletes: RefCell::new(Vec::new()),
            upserts: RefCell::new(Vec::new()),
            fail_next_upsert: Cell::new(false),
        }
    }

    fn delete_by_resource(&self, id: &str) -> u64 {
        self.deletes.borrow_mut().push(id.to_string());
        match self.chunks.borrow_mut().remove(id) {
            Some(rows) => rows.len() as u64,
            None => 0,
        }
    }

    fn upsert(&self, id: &str, rows: Vec<ChunkRecord>, replaces: Option<&str>) -> Result<(), Error> {
        self.upserts.borrow_mut().push(replaces.map(str::to_string));
        if self.fail_next_upsert.replace(false) {
            return Err(Error::Internal {
                message: "simulated upsert failure".to_string(),
                correlation_id: "simulated_failure".to_string(),
            });
        }
        if let Some(old) = replaces {
            self.chunks.borrow_mut().remove(old);
        }
        self.chunks.borrow_mut().insert(id.to_string(), rows);
        Ok(())
    }

    fn chunks_for(&self, id: &str) -> Vec<ChunkRecord> {
        self.chunks.borrow().get(id).cloned().unwrap_or_default()
    }

    fn chunk_count(&self) -> usize {
        self.chunks.borrow().values().map(|c| c.len()).sum()
    }

    fn documents(&self) -> Vec<DocumentRecord> {
        let chunks = self.chunks.borrow();
        chunks
            .values()
            .flat_map(|rows| rows.first())
            .map(|c| DocumentRecord {
                uri: c.uri.clone(),
                resource_id: c.resource_id.clone(),
                source_id: c.source_id.clone(),
                content_hash: c.content_hash.clone(),
                policy_version: c.policy_version.clone(),
            })
            .collect()
    }
}

/// How the embedder answers.
enum FakeEmbedder {
    Good,
    FailOn(&'static str),
    Failing,
    Short,
}

impl FakeEmbedder {
    fn embed(&self, chunks: &[String]) -> Result<Vec<Vec<Vec<u32>>>, Error> {
        let failure = Error::Internal {
            message: "intentional embedder failure for testing".to_string(),
            correlation_id: "failing_embedder".to_string(),
        };
        match self {
            FakeEmbedder::Failing => Err(failure),
            FakeEmbedder::FailOn(marker) if chunks.iter().any(|c| c.contains(marker)) => {
                Err(failure)
            }
            FakeEmbedder::Short => Ok(vec![vec![]]),
            _ => Ok(vec![chunks.iter().map(|c| vec![c.len() as u32; 4]).collect()]),
        }
    }
}

/// One chunk per block.
fn chunk_blocks(resource: &Resource) -> Vec<ChunkOutput> {
    resource
        .blocks
        .iter()
        .map(|b| ChunkOutput {
            id: format!("{}:{}", resource.id, b.seq),
            text: b.text.clone(),
            span: Span::new(0, b.text.len()),
            heading_path: vec![],
            block_seq: b.seq,
            seq_in_block: 0,
            block_kind: Some(b.kind.kind_str().to_string()),
            window_block_seqs: vec![],
        })
        .collect()
}

fn index(
    resource: &Resource,
    source: &Source,
    replaces: Option<&str>,
    store: &FakeStore,
    embedder: &FakeEmbedder,
    config: &IngestionConfig,
) -> Result<IndexOutcome, Error> {
    let _ = plan_chunking(resource, source, config, false);
    let outputs = chunk_blocks(resource);
    let embedded = if outputs.is_empty() {
        vec![]
    } else {
        embedder.embed(&document_chunks(resource, &outputs).chunks)?
    };
    let plan = index_resource(resource, config, outputs, &embedded)?;
    let outcome = plan.outcome();
    if let IndexPlan::Write(records) = plan {
        store.upsert(&resource.id, records, replaces)?;
    }
    Ok(outcome)
}

enum ScriptStep {
    Discovered(usize),
    Resource(Resource),
    Skipped(String, SkipReason),
    Gone(String),
}

struct Run {
    index: DocumentIndex,
    result: IngestionResult,
    events: Vec<ProgressEvent>,
    suppressed: Option<(String, usize)>,
}

fn run_with(
    source: &Source,
    script: Vec<ScriptStep>,
    enumeration: Enumeration,
    doc_index: DocumentIndex,
    store: &FakeStore,
    embedder: &FakeEmbedder,
    config: &IngestionConfig,
    deletion: DeletionPolicy,
) -> Run {
    let (mut callback, first) = PipelineCallback::new(source, doc_index, config);
    let mut events = vec![first];
    let mut errors = 0;
    for step in script {
        assert!(callback.has_room());
        match step {
            ScriptStep::Discovered(n) => events.push(callback.on_discovered(n)),
            ScriptStep::Skipped(at, reason) => {
                if matches!(reason, SkipReason::Error(_)) {
                    errors += 1;
                }
                let (started, finished) = callback.on_skipped(&Uri::parse(&at).unwrap(), &reason);
                events.push(started);
                events.push(finished);
            }
            ScriptStep::Gone(at) => callback.on_gone(&Uri::parse(&at).unwrap()),
            ScriptStep::Resource(r) => {
                let (started, step) = callback.begin_resource(&r);
                events.push(started);
                match step {
                    ResourceStep::Skip(event) => events.push(event),
                    ResourceStep::Index { replaces } => {
                        let outcome =
                            index(&r, source, replaces.as_deref(), store, embedder, config);
                        events.push(callback.finish_resource(&r, &outcome));
                    }
                }
            }
        }
    }
    assert_eq!(callback.skip_error_count(), errors);
    let mut removals = Removals::start(callback, deletion, enumeration);
    while let Some(id) = removals.next_removal() {
        removals.deleted(store.delete_by_resource(&id));
    }
    let suppressed = removals
        .suppressed()
        .map(|s| (s.reason.clone(), s.documents_preserved));
    let (index, result, last) = removals.finish();
    events.push(last);
    Run {
        index,
        result,
        events,
        suppressed,
    }
}

/// A pruning run with a working embedder and a complete enumeration.
fn run(
    source: &Source,
    script: Vec<ScriptStep>,
    doc_index: DocumentIndex,
    store: &FakeStore,
) -> Run {
    run_with(
        source,
        script,
        Enumeration::Complete,
        doc_index,
        store,
        &FakeEmbedder::Good,
        &make_ingestion_config(),
        DeletionPolicy::Prune,
    )
}

fn make_ingestion_config() -> IngestionConfig {
    IngestionConfig {
        store_id: STORE.to_string(),
        policy_version: "policy-v1".to_string(),
        chunker: ChunkerConfig::prose(),
    }
}

fn make_source(spec: SourceSpec) -> Source {
    Source {
        id: new_ulid(),
        store_id: STORE.to_string(),
        kind: match &spec {
            SourceSpec::Path { .. } => SourceKind::Path,
            SourceSpec::Url { .. } => SourceKind::Url,
            SourceSpec::Feed { .. } => SourceKind::Feed,
        },
        spec,
        source_preset: "prose".to_string(),
    }
}

fn make_path_source(root: &str) -> Source {
    make_source(SourceSpec::Path {
        root: root.to_string(),
        includes: vec![],
        exclude: vec![],
    })
}

fn make_url_source(url: &str) -> Source {
    make_source(SourceSpec::Url {
        url: url.to_string(),
        refresh_interval_secs: None,
    })
}

fn make_feed_source(url: &str) -> Source {
    make_source(SourceSpec::Feed {
        url: url.to_string(),
        max_entries: None,
        fetch_full_content: true,
        refresh_interval_secs: None,
    })
}

fn make_resource_with_blocks(uri: &str, source: &Source, blocks: Vec<Block>) -> Resource {
    let joined = blocks
        .iter()
        .map(|b| b.text.as_str())
        .collect::<Vec<_>>()
        .join("\n\n");
    let hash = content_hash(&joined);
    Resource {
        id: content_hash(&format!("{uri}\n{hash}")),
        store_id: STORE.to_string(),
        source_id: source.id.clone(),
        ingestor_kind: IngestorKind::File,
        uri: Uri::parse(uri).unwrap(),
        content_hash: hash,
        title: None,
        mime: Some("text/markdown".to_string()),
        metadata: Metadata::Document(DocumentMetadata::default()),
        added_at: "2026-06-10T12:00:00Z".to_string(),
        modified_at: "2026-06-10T12:00:00Z".to_string(),
        blocks,
    }
}

fn make_resource(uri: &str, text: &str, source: &Source) -> Resource {
    make_resource_with_blocks(
        uri,
        source,
        vec![Block {
            seq: 0,
            kind: BlockKind::Text,
            text: text.to_string(),
            location: None,
        }],
    )
}

/// Indexes a resource as an earlier run would have, and returns its record.
fn seed_indexed(store: &FakeStore, source: &Source, uri: &str, text: &str) -> DocumentRecord {
    let resource = make_resource(uri, text, source);
    let config = make_ingestion_config();
    index(&resource, source, None, store, &FakeEmbedder::Good, &config).unwrap();
    DocumentRecord {
        uri: resource.uri.as_str().to_string(),
        resource_id: resource.id.clone(),
        source_id: source.id.clone(),
        content_hash: resource.content_hash.clone(),
        policy_version: config.policy_version,
    }
}

fn index_of(records: &[&DocumentRecord]) -> DocumentIndex {
    let mut doc_index = DocumentIndex::new();
    for record in records {
        doc_index.upsert((*record).clone());
    }
    doc_index
}

fn incomplete(reason: &str) -> Enumeration {
    Enumeration::Incomplete {
        reason: reason.to_string(),
    }
}

#[test]
fn counter_parity_for_mixed_script() {
    let store = FakeStore::new();
    let source = make_path_source("/docs");
    let good = make_resource("file:///docs/good.md", "Some good content to index.", &source);
    let bad = make_resource(
        "file:///docs/bad.md",
        "This contains FAIL_MARKER and will error.",
        &source,
    );
    let out = run_with(
        &source,
        vec![
            ScriptStep::Discovered(4),
            ScriptStep::Resource(good),
            ScriptStep::Resource(bad),
            ScriptStep::Skipped(
                "file:///docs/unchanged.md".to_string(),
                SkipReason::Unchanged,
            ),
            ScriptStep::Skipped(
                "file:///docs/binary.bin".to_string(),
                SkipReason::Unsupported,
            ),
        ],
        Enumeration::Complete,
        DocumentIndex::new(),
        &store,
        &FakeEmbedder::FailOn("FAIL_MARKER"),
        &make_ingestion_config(),
        DeletionPolicy::Prune,
    );
    assert_eq!(out.result.docs_seen, 4);
    assert_eq!(out.result.docs_indexed, 1);
    assert_eq!(out.result.docs_skipped, 1);
    assert_eq!(out.result.unsupported_format_count, 1);
    assert_eq!(out.result.error_count, 1);
    assert!(out.result.chunks_written > 0);
    assert_eq!(
        out.result,
        IngestionResult {
            docs_seen: 4,
            docs_indexed: 1,
            docs_skipped: 1,
            docs_deleted: 0,
            chunks_written: 1,
            unsupported_format_count: 1,
            error_count: 1,
            docs_prunable: 0,
        }
    );
}

#[test]
fn skip_reason_other_counts_as_docs_skipped_not_unsupported() {
    let source = make_path_source("/docs");
    let out = run(
        &source,
        vec![
            ScriptStep::Discovered(1),
            ScriptStep::Skipped(
                "https://example.com/empty".to_string(),
                SkipReason::Other("extraction produced no content".to_string()),
            ),
        ],
        DocumentIndex::new(),
        &FakeStore::new(),
    );
    assert_eq!(out.result.docs_skipped, 1);
    assert_eq!(out.result.unsupported_format_count, 0);
    assert_eq!(out.result.error_count, 0);
}

#[test]
fn on_skipped_error_counts_as_error_not_skip_and_survives_sweep() {
    let store = FakeStore::new();
    let source = make_path_source("/docs");
    let error_uri = "file:///docs/transient-failure.md";
    let unchanged_uri = "file:///docs/unchanged.md";
    let error_record = seed_indexed(
        &store,
        &source,
        error_uri,
        "Content that will transiently fail this run.",
    );
    let unchanged_record = seed_indexed(
        &store,
        &source,
        unchanged_uri,
        "Content that never changes.",
    );
    let good = make_resource("file:///docs/good.md", "Brand new good content.", &source);
    let out = run(
        &source,
        vec![
            ScriptStep::Discovered(3),
            ScriptStep::Resource(good),
            ScriptStep::Skipped(
                error_uri.to_string(),
                SkipReason::Error("transient read failure".to_string()),
            ),
            ScriptStep::Skipped(unchanged_uri.to_string(), SkipReason::Unchanged),
        ],
        index_of(&[&error_record, &unchanged_record]),
        &store,
    );
    assert_eq!(out.result.docs_indexed, 1);
    assert_eq!(out.result.docs_skipped, 1);
    assert_eq!(out.result.error_count, 1);
    assert!(out.index.get(error_uri).is_some());
    assert!(out.index.get(unchanged_uri).is_some());
    assert!(!store.chunks_for(&error_record.resource_id).is_empty());
    assert!(!store.chunks_for(&unchanged_record.resource_id).is_empty());
    let error_event = out.events.iter().find_map(|e| match e {
        ProgressEvent::DocumentFinished { uri, outcome } if uri == error_uri => Some(outcome),
        _ => None,
    });
    assert!(matches!(error_event, Some(DocOutcome::Error)));
}

#[test]
fn progress_event_sequence_parity() {
    let source = make_path_source("/docs");
    let good = make_resource("file:///docs/good.md", "Some content to index.", &source);
    let out = run(
        &source,
        vec![
            ScriptStep::Discovered(2),
            ScriptStep::Resource(good),
            ScriptStep::Skipped(
                "file:///docs/unsupported.bin".to_string(),
                SkipReason::Unsupported,
            ),
        ],
        DocumentIndex::new(),
        &FakeStore::new(),
    );
    let started = |at: &str, index| ProgressEvent::DocumentStarted {
        uri: at.to_string(),
        index,
        total: 2,
    };
    let finished = |at: &str, outcome| ProgressEvent::DocumentFinished {
        uri: at.to_string(),
        outcome,
    };
    assert_eq!(
        out.events,
        vec![
            ProgressEvent::SourceStarted {
                source_id: source.id.clone(),
                location: "/docs".to_string()
            },
            ProgressEvent::Discovered { total: 2 },
            started("file:///docs/good.md", 0),
            finished("file:///docs/good.md", DocOutcome::Indexed { chunks: 1 }),
            started("file:///docs/unsupported.bin", 1),
            finished("file:///docs/unsupported.bin", DocOutcome::Unsupported),
            ProgressEvent::SourceFinished { result: out.result },
        ]
    );
}

#[test]
fn callback_skips_unchanged_content_and_policy() {
    let store = FakeStore::new();
    let source = make_path_source("/docs");
    let text = "Stable content that never changes.";
    let uri = "file:///docs/stable.md";
    let record = seed_indexed(&store, &source, uri, text);
    let before = store.chunk_count();
    let out = run(
        &source,
        vec![ScriptStep::Resource(make_resource(uri, text, &source))],
        index_of(&[&record]),
        &store,
    );
    assert_eq!(out.result.docs_indexed, 0);
    assert_eq!(out.result.docs_skipped, 1);
    assert_eq!(store.chunk_count(), before);
}

#[test]
fn policy_change_forces_reindex() {
    let store = FakeStore::new();
    let source = make_path_source("/docs");
    let text = "Content whose policy will change.";
    let uri = "file:///docs/policy.md";
    let record = seed_indexed(&store, &source, uri, text);
    let config_v2 = IngestionConfig {
        store_id: STORE.to_string(),
        policy_version: "policy-v2".to_string(),
        chunker: ChunkerConfig::prose(),
    };
    let resource = make_resource(uri, text, &source);
    let new_resource_id = resource.id.clone();
    let out = run_with(
        &source,
        vec![ScriptStep::Resource(resource)],
        Enumeration::Complete,
        index_of(&[&record]),
        &store,
        &FakeEmbedder::Good,
        &config_v2,
        DeletionPolicy::Prune,
    );
    assert_eq!(out.result.docs_indexed, 1);
    assert_eq!(record.resource_id, new_resource_id);
    let chunks = store.chunks_for(&new_resource_id);
    assert!(!chunks.is_empty());
    assert!(chunks.iter().all(|c| c.policy_version == "policy-v2"));
    assert_eq!(out.index.get(uri).unwrap().policy_version, "policy-v2");
}

#[test]
fn rehydrated_index_skips_unchanged_and_reindexes_changed() {
    let store = FakeStore::new();
    let source = make_path_source("/docs");
    let stable_uri = "file:///docs/stable.md";
    let changing_uri = "file:///docs/changing.md";
    let script = |changing: &str| {
        vec![
            ScriptStep::Resource(make_resource(
                stable_uri,
                "Stable document content.",
                &source,
            )),
            ScriptStep::Resource(make_resource(changing_uri, changing, &source)),
        ]
    };
    let first = run(
        &source,
        script("Original content."),
        DocumentIndex::new(),
        &store,
    );
    assert_eq!(first.result.docs_indexed, 2);
    let records = store.documents();
    assert_eq!(records.len(), 2);
    let second = run(
        &source,
        script("Completely new content."),
        DocumentIndex::from_records(records),
        &store,
    );
    assert_eq!(second.result.docs_indexed, 1);
    assert_eq!(second.result.docs_skipped, 1);
    assert_eq!(store.documents().len(), 2);
}

#[test]
fn delete_sweep_removes_uri_not_yielded_keeps_yielded() {
    let store = FakeStore::new();
    let source = make_path_source("/docs");
    let kept_uri = "file:///docs/kept.md";
    let gone_uri = "file:///docs/gone.md";
    let kept = seed_indexed(&store, &source, kept_uri, "Kept content.");
    let gone = seed_indexed(&store, &source, gone_uri, "Gone content.");
    let out = run(
        &source,
        vec![ScriptStep::Resource(make_resource(
            kept_uri,
            "Kept content.",
            &source,
        ))],
        index_of(&[&kept, &gone]),
        &store,
    );
    assert_eq!(out.result.docs_deleted, 1);
    assert!(store.chunks_for(&gone.resource_id).is_empty());
    assert!(!store.chunks_for(&kept.resource_id).is_empty());
    assert!(out.index.get(gone_uri).is_none());
    assert!(out.index.get(kept_uri).is_some());
    assert!(out.suppressed.is_none());
}

#[test]
fn zero_block_resource_leaves_doc_index_pointing_at_old_resource() {
    let store = FakeStore::new();
    let source = make_path_source("/docs");
    let uri = "file:///docs/emptied.md";
    let old = seed_indexed(&store, &source, uri, "Original body.");
    let empty = make_resource_with_blocks(uri, &source, vec![]);
    assert_ne!(empty.id, old.resource_id);
    let out = run(
        &source,
        vec![ScriptStep::Resource(empty)],
        index_of(&[&old]),
        &store,
    );
    assert_eq!(out.result.docs_deleted, 0);
    assert_eq!(out.result.docs_indexed, 0);
    assert_eq!(out.result.docs_skipped, 1);
    assert_eq!(out.result.error_count, 0);
    assert!(!store.chunks_for(&old.resource_id).is_empty());
    let record = out.index.get(uri).unwrap();
    assert_eq!(record.resource_id, old.resource_id);
    assert_eq!(record.content_hash, old.content_hash);
}

#[test]
fn unavailable_enumeration_skips_sweep() {
    let store = FakeStore::new();
    let source = make_path_source("/docs");
    let uri = "file:///volumes/archive/book.md";
    let record = seed_indexed(&store, &source, uri, "Book text.");
    let reason = "source root is not reachable: /volumes/archive";
    let out = run_with(
        &source,
        vec![],
        incomplete(reason),
        index_of(&[&record]),
        &store,
        &FakeEmbedder::Good,
        &make_ingestion_config(),
        DeletionPolicy::Prune,
    );
    assert_eq!(out.result.docs_deleted, 0);
    assert!(!store.chunks_for(&record.resource_id).is_empty());
    assert!(out.index.get(uri).is_some());
    assert_eq!(out.suppressed, Some((reason.to_string(), 1)));
}

#[test]
fn zero_seen_run_does_not_sweep_source_with_history() {
    let store = FakeStore::new();
    let source = make_path_source("/docs");
    let a = seed_indexed(&store, &source, "file:///docs/a.md", "Alpha.");
    let b = seed_indexed(&store, &source, "file:///docs/b.md", "Bravo.");
    let out = run(
        &source,
        vec![ScriptStep::Discovered(0)],
        index_of(&[&a, &b]),
        &store,
    );
    assert_eq!(out.result.docs_deleted, 0);
    for record in [&a, &b] {
        assert!(!store.chunks_for(&record.resource_id).is_empty());
    }
    assert_eq!(
        out.suppressed,
        Some((
            "this run observed none of the documents this source owns".to_string(),
            2
        ))
    );
}

#[test]
fn sweep_still_runs_when_any_owned_uri_is_seen() {
    let store = FakeStore::new();
    let source = make_path_source("/docs");
    let kept_uri = "file:///docs/kept.md";
    let gone_a = "file:///docs/gone-a.md";
    let gone_b = "file:///docs/gone-b.md";
    let kept = seed_indexed(&store, &source, kept_uri, "Kept.");
    let a = seed_indexed(&store, &source, gone_a, "Gone A.");
    let b = seed_indexed(&store, &source, gone_b, "Gone B.");
    let out = run(
        &source,
        vec![ScriptStep::Resource(make_resource(kept_uri, "Kept.", &source))],
        index_of(&[&kept, &a, &b]),
        &store,
    );
    assert_eq!(out.result.docs_deleted, 2);
    assert!(out.index.get(gone_a).is_none());
    assert!(out.index.get(gone_b).is_none());
    assert!(out.index.get(kept_uri).is_some());
}

#[test]
fn retain_policy_keeps_absent_documents_and_counts_them_prunable() {
    let store = FakeStore::new();
    let source = make_path_source("/docs");
    let kept_uri = "file:///docs/kept.md";
    let gone_uri = "file:///docs/gone.md";
    let kept = seed_indexed(&store, &source, kept_uri, "Kept.");
    let gone = seed_indexed(&store, &source, gone_uri, "Gone.");
    let out = run_with(
        &source,
        vec![ScriptStep::Resource(make_resource(kept_uri, "Kept.", &source))],
        Enumeration::Complete,
        index_of(&[&kept, &gone]),
        &store,
        &FakeEmbedder::Good,
        &make_ingestion_config(),
        DeletionPolicy::Retain,
    );
    assert_eq!(out.result.docs_deleted, 0);
    assert_eq!(out.result.docs_prunable, 1);
    assert!(!store.chunks_for(&gone.resource_id).is_empty());
    assert!(out.index.get(gone_uri).is_some());
}

#[test]
fn retain_policy_keeps_confirmed_gone_documents() {
    let store = FakeStore::new();
    let url = "https://example.com/article";
    let source = make_url_source(url);
    let record = seed_indexed(&store, &source, url, "Article body.");
    let out = run_with(
        &source,
        vec![ScriptStep::Gone(url.to_string())],
        Enumeration::Complete,
        index_of(&[&record]),
        &store,
        &FakeEmbedder::Good,
        &make_ingestion_config(),
        DeletionPolicy::Retain,
    );
    assert_eq!(out.result.docs_deleted, 0);
    assert_eq!(out.result.docs_prunable, 1);
    assert!(!store.chunks_for(&record.resource_id).is_empty());
}

#[test]
fn suppressed_sweep_reports_nothing_prunable() {
    let store = FakeStore::new();
    let source = make_path_source("/docs");
    let record = seed_indexed(&store, &source, "file:///volumes/archive/a.md", "Body.");
    let out = run_with(
        &source,
        vec![],
        incomplete("source root is not reachable: /volumes/archive"),
        index_of(&[&record]),
        &store,
        &FakeEmbedder::Good,
        &make_ingestion_config(),
        DeletionPolicy::Retain,
    );
    assert_eq!(out.result.docs_deleted, 0);
    assert_eq!(out.result.docs_prunable, 0);
}

#[test]
fn zero_seen_run_on_source_without_history_is_harmless() {
    let store = FakeStore::new();
    let source = make_path_source("/docs");
    let other = make_path_source("/docs");
    let foreign = seed_indexed(&store, &other, "file:///other/x.md", "Foreign.");
    let out = run(
        &source,
        vec![ScriptStep::Discovered(0)],
        index_of(&[&foreign]),
        &store,
    );
    assert_eq!(out.result.docs_deleted, 0);
    assert!(!store.chunks_for(&foreign.resource_id).is_empty());
    assert!(out.suppressed.is_none());
}

/// The URIs of the files `names` directly under `root`, as an enumeration of it
/// spells them.
fn uris_under(root: &str, names: &[&str]) -> Vec<String> {
    let entries: Vec<DirEntry> = names
        .iter()
        .map(|name| DirEntry {
            name: name.to_string(),
            node: DirNode::File {
                path: format!("{root}/{name}"),
            },
        })
        .collect();
    let found = enumerate_path_source(Some(&entries), &[], &[]).unwrap();
    assert_eq!(found.files().len(), names.len());
    names
        .iter()
        .map(|name| {
            let file = found.files().iter().find(|f| f.path.ends_with(name));
            file.unwrap().uri.as_str().to_string()
        })
        .collect()
}

#[test]
fn delete_sweep_removes_file_under_space_containing_root() {
    let store = FakeStore::new();
    let root = "/tmp/base/My Docs";
    let source = make_path_source(root);
    let uris = uris_under(root, &["note.md", "keep.md"]);
    assert!(uris[0].contains("My%20Docs"));
    let record = seed_indexed(&store, &source, &uris[0], "Space root content.");
    let kept = seed_indexed(&store, &source, &uris[1], "Still here content.");
    let out = run(
        &source,
        vec![ScriptStep::Resource(make_resource(
            &uris[1],
            "Still here content.",
            &source,
        ))],
        index_of(&[&record, &kept]),
        &store,
    );
    assert_eq!(out.result.docs_deleted, 1);
    assert!(store.chunks_for(&record.resource_id).is_empty());
    assert!(out.index.get(&uris[0]).is_none());
    assert!(out.index.get(&uris[1]).is_some());
}

#[test]
fn delete_sweep_removes_file_under_hash_containing_root() {
    let store = FakeStore::new();
    let root = "/tmp/base/my#notes";
    let source = make_path_source(root);
    let uris = uris_under(root, &["note.md", "keep.md"]);
    assert!(uris[0].contains("my%23notes"));
    let record = seed_indexed(&store, &source, &uris[0], "Hash root content.");
    let kept = seed_indexed(&store, &source, &uris[1], "Still here content.");
    let out = run(
        &source,
        vec![ScriptStep::Resource(make_resource(
            &uris[1],
            "Still here content.",
            &source,
        ))],
        index_of(&[&record, &kept]),
        &store,
    );
    assert_eq!(out.result.docs_deleted, 1);
    assert!(store.chunks_for(&record.resource_id).is_empty());
    assert!(out.index.get(&uris[0]).is_none());
}

#[test]
fn delete_sweep_does_not_cross_sibling_prefix_sources() {
    let store = FakeStore::new();
    let source_a = make_path_source("/tmp/base/blog");
    let source_b = make_path_source("/tmp/base/blog-drafts");
    let uri_a_kept = "file:///tmp/base/blog/kept.md";
    let a = seed_indexed(&store, &source_a, "file:///tmp/base/blog/post.md", "Blog post.");
    let a_kept = seed_indexed(&store, &source_a, uri_a_kept, "Kept post.");
    let b = seed_indexed(
        &store,
        &source_b,
        "file:///tmp/base/blog-drafts/draft.md",
        "Draft content.",
    );
    let out = run(
        &source_a,
        vec![ScriptStep::Resource(make_resource(
            uri_a_kept,
            "Kept post.",
            &source_a,
        ))],
        index_of(&[&a, &a_kept, &b]),
        &store,
    );
    assert_eq!(out.result.docs_deleted, 1);
    assert!(store.chunks_for(&a.resource_id).is_empty());
    assert!(!store.chunks_for(&b.resource_id).is_empty());
    assert!(out.index.get(&b.uri).is_some());
}

#[test]
fn delete_sweep_does_not_cross_percent_encoded_twin_roots() {
    let store = FakeStore::new();
    let source_a = make_path_source("/tmp/base/foo%23");
    let source_b = make_path_source("/tmp/base/foo#");
    let uris = uris_under("/tmp/base/foo#", &["doc.md"]);
    assert!(uris[0].contains("foo%23/"));
    let b = seed_indexed(&store, &source_b, &uris[0], "Twin root content.");
    let out = run(&source_a, vec![], index_of(&[&b]), &store);
    assert_eq!(out.result.docs_deleted, 0);
    assert!(!store.chunks_for(&b.resource_id).is_empty());
    assert!(out.index.get(&b.uri).is_some());
}

#[test]
fn on_skipped_unchanged_survives_delete_sweep() {
    let store = FakeStore::new();
    let source = make_path_source("/docs");
    let uri = "file:///docs/prefiltered.md";
    let record = seed_indexed(&store, &source, uri, "Content.");
    let out = run(
        &source,
        vec![ScriptStep::Skipped(uri.to_string(), SkipReason::Unchanged)],
        index_of(&[&record]),
        &store,
    );
    assert_eq!(out.result.docs_deleted, 0);
    assert_eq!(out.result.docs_skipped, 1);
    assert!(!store.chunks_for(&record.resource_id).is_empty());
    assert!(out.index.get(uri).is_some());
}

#[test]
fn confirmed_gone_url_is_deleted() {
    let store = FakeStore::new();
    let url = "https://example.com/page";
    let source = make_url_source(url);
    let record = seed_indexed(&store, &source, url, "Page body.");
    let out = run(
        &source,
        vec![ScriptStep::Gone(url.to_string())],
        index_of(&[&record]),
        &store,
    );
    assert_eq!(out.result.docs_deleted, 1);
    assert!(store.chunks_for(&record.resource_id).is_empty());
}

#[test]
fn feed_zero_callback_run_is_not_swept_but_confirmed_gone_url_is_deleted() {
    let store = FakeStore::new();
    let feed_source = make_feed_source("https://example.com/feed.xml");
    let url_uri = "https://example.com/page";
    let url_source = make_url_source(url_uri);
    let entry_uri = "https://example.com/feed.xml#entry:1";
    let entry = seed_indexed(&store, &feed_source, entry_uri, "Feed entry body.");
    let page = seed_indexed(&store, &url_source, url_uri, "Page body.");
    let fed = run(&feed_source, vec![], index_of(&[&entry, &page]), &store);
    assert_eq!(fed.result.docs_deleted, 0);
    assert!(!store.chunks_for(&entry.resource_id).is_empty());
    assert!(fed.index.get(entry_uri).is_some());
    assert!(fed.suppressed.is_none());
    let fetched = run(
        &url_source,
        vec![ScriptStep::Gone(url_uri.to_string())],
        fed.index,
        &store,
    );
    assert_eq!(fetched.result.docs_deleted, 1);
    assert!(store.chunks_for(&page.resource_id).is_empty());
}

#[test]
fn source_location_feed_arm_returns_url() {
    let source = make_feed_source("https://example.com/feed.xml");
    assert_eq!(source_location(&source), "https://example.com/feed.xml");
    assert_eq!(source_location(&make_path_source("/docs")), "/docs");
}

#[test]
fn per_resource_error_does_not_abort_later_resources_still_index() {
    let store = FakeStore::new();
    let source = make_path_source("/docs");
    let first = make_resource("file:///docs/first.md", "First good content.", &source);
    let bad = make_resource("file:///docs/bad.md", "This has FAIL_MARKER in it.", &source);
    let last = make_resource("file:///docs/last.md", "Last good content.", &source);
    let (first_id, last_id) = (first.id.clone(), last.id.clone());
    let out = run_with(
        &source,
        vec![
            ScriptStep::Resource(first),
            ScriptStep::Resource(bad),
            ScriptStep::Resource(last),
        ],
        Enumeration::Complete,
        DocumentIndex::new(),
        &store,
        &FakeEmbedder::FailOn("FAIL_MARKER"),
        &make_ingestion_config(),
        DeletionPolicy::Prune,
    );
    assert_eq!(out.result.error_count, 1);
    assert_eq!(out.result.docs_indexed, 2);
    assert!(!store.chunks_for(&first_id).is_empty());
    assert!(!store.chunks_for(&last_id).is_empty());
}

#[test]
fn embed_failure_preserves_existing_chunks_and_counts_error() {
    let store = FakeStore::new();
    let source = make_path_source("/docs");
    let uri = "file:///docs/doc.md";
    let record = seed_indexed(&store, &source, uri, "Original content for the document.");
    let changed = make_resource(uri, "Changed content that triggers re-indexing.", &source);
    let out = run_with(
        &source,
        vec![ScriptStep::Resource(changed)],
        Enumeration::Complete,
        index_of(&[&record]),
        &store,
        &FakeEmbedder::Failing,
        &make_ingestion_config(),
        DeletionPolicy::Prune,
    );
    assert_eq!(out.result.error_count, 1);
    assert_eq!(out.result.docs_indexed, 0);
    assert!(!store.chunks_for(&record.resource_id).is_empty());
    assert_eq!(out.index.get(uri).unwrap().resource_id, record.resource_id);
}

#[test]
fn index_resource_short_embedder_returns_error() {
    let store = FakeStore::new();
    let source = make_path_source("/docs");
    let resource = make_resource(
        "file:///docs/short.md",
        "Content that produces at least one chunk.",
        &source,
    );
    let config = make_ingestion_config();
    let result = index(&resource, &source, None, &store, &FakeEmbedder::Short, &config);
    assert!(matches!(result, Err(Error::Internal { .. })));
    assert_eq!(store.chunk_count(), 0);
}

#[test]
fn index_resource_replace_uses_single_call_not_separate_delete() {
    let store = FakeStore::new();
    let source = make_path_source("/docs");
    let uri = "file:///docs/notes.md";
    let v1 = make_resource(uri, "Version one content.", &source);
    let old_doc_id = v1.id.clone();
    let v2 = make_resource(uri, "Version two content - completely different.", &source);
    let first = run(
        &source,
        vec![ScriptStep::Resource(v1)],
        DocumentIndex::new(),
        &store,
    );
    run(&source, vec![ScriptStep::Resource(v2)], first.index, &store);
    assert!(store.deletes.borrow().is_empty());
    assert_eq!(*store.upserts.borrow(), vec![None, Some(old_doc_id)]);
}

#[test]
fn index_resource_replace_failure_leaves_old_document_intact() {
    let store = FakeStore::new();
    let source = make_path_source("/docs");
    let config = make_ingestion_config();
    let uri = "file:///docs/notes.md";
    let v1 = make_resource(uri, "Version one content.", &source);
    index(&v1, &source, None, &store, &FakeEmbedder::Good, &config).unwrap();
    assert_eq!(store.chunks_for(&v1.id).len(), 1);
    store.fail_next_upsert.set(true);
    let v2 = make_resource(uri, "Version two content - completely different.", &source);
    let result = index(&v2, &source, Some(&v1.id), &store, &FakeEmbedder::Good, &config);
    assert!(result.is_err());
    assert_eq!(store.chunks_for(&v1.id).len(), 1);
}

#[test]
fn title_propagates_from_resource_title_when_metadata_has_none() {
    let store = FakeStore::new();
    let source = make_path_source("/docs");
    let mut resource = make_resource(
        "file:///docs/titled.md",
        "Body content for the titled document.",
        &source,
    );
    resource.title = Some("My Great Title".to_string());
    let config = make_ingestion_config();
    index(&resource, &source, None, &store, &FakeEmbedder::Good, &config).unwrap();
    let chunks = store.chunks_for(&resource.id);
    assert!(!chunks.is_empty());
    for c in &chunks {
        assert_eq!(c.metadata.title(), Some("My Great Title"));
    }
}

#[test]
fn title_from_metadata_is_not_overwritten_by_resource_title() {
    let store = FakeStore::new();
    let source = make_path_source("/docs");
    let mut resource = make_resource(
        "file:///docs/titled2.md",
        "Body content for the second titled document.",
        &source,
    );
    resource.title = Some("Fallback Title".to_string());
    resource.metadata = Metadata::Document(DocumentMetadata {
        dublin_core: DublinCoreMetadata {
            title: Some("Authoritative Title".to_string()),
            ..Default::default()
        },
    });
    let config = make_ingestion_config();
    index(&resource, &source, None, &store, &FakeEmbedder::Good, &config).unwrap();
    let chunks = store.chunks_for(&resource.id);
    assert!(!chunks.is_empty());
    for c in &chunks {
        assert_eq!(c.metadata.title(), Some("Authoritative Title"));
    }
}

#[test]
fn index_resource_empty_blocks_keeps_old_content() {
    let store = FakeStore::new();
    let source = make_path_source("/docs");
    let old = seed_indexed(&store, &source, "file:///docs/e.md", "Body.");
    let empty = make_resource_with_blocks("file:///docs/e.md", &source, vec![]);
    let config = make_ingestion_config();
    let outcome = index(
        &empty,
        &source,
        Some(&old.resource_id),
        &store,
        &FakeEmbedder::Good,
        &config,
    );
    assert_eq!(outcome.unwrap(), IndexOutcome::Empty);
    assert!(!store.chunks_for(&old.resource_id).is_empty());
}

#[test]
fn index_resource_copies_block_page_onto_chunks() {
    let store = FakeStore::new();
    let source = make_path_source("/docs");
    let page_block = |seq: u32, text: &str, page: Option<u32>| Block {
        seq,
        kind: BlockKind::Text,
        text: text.to_string(),
        location: page.map(|p| BlockLocation { page: Some(p) }),
    };
    let blocks = vec![
        page_block(0, "Alpha content lives on the first page here.", Some(1)),
        page_block(1, "Bravo content lives on the second page here.", Some(2)),
        page_block(2, "Charlie content has no page info recorded.", None),
    ];
    let resource = make_resource_with_blocks("file:///docs/paged.pdf", &source, blocks);
    let config = make_ingestion_config();
    let written = index(&resource, &source, None, &store, &FakeEmbedder::Good, &config).unwrap();
    assert!(matches!(written, IndexOutcome::Written(n) if n >= 3));
    let chunks = store.chunks_for(&resource.id);
    let pages: Vec<(u32, Option<u32>)> = chunks.iter().map(|c| (c.block_seq, c.page)).collect();
    assert_eq!(pages, vec![(0, Some(1)), (1, Some(2)), (2, None)]);
}

#[test]
fn index_resource_fetched_at_is_added_at_not_modified_at() {
    let store = FakeStore::new();
    let source = make_path_source("/docs");
    let mut resource = make_resource(
        "https://blog.example.com/2020/old-post",
        "An old post that a feed is only surfacing to us today.",
        &source,
    );
    resource.added_at = "2026-08-05T00:00:00Z".to_string();
    resource.modified_at = "2020-01-01T00:00:00Z".to_string();
    let config = make_ingestion_config();
    index(&resource, &source, None, &store, &FakeEmbedder::Good, &config).unwrap();
    let chunks = store.chunks_for(&resource.id);
    assert!(!chunks.is_empty());
    for c in &chunks {
        assert_eq!(c.fetched_at, "2026-08-05T00:00:00Z");
    }
}

#[test]
fn removal_is_opt_in() {
    assert_eq!(DeletionPolicy::default(), DeletionPolicy::Retain);
}

#[test]
fn gone_documents_are_removed_from_what_was_not_fully_seen() {
    let store = FakeStore::new();
    let source = make_path_source("/docs");
    let a = seed_indexed(&store, &source, "file:///docs/a.md", "Alpha.");
    let b = seed_indexed(&store, &source, "file:///docs/b.md", "Bravo.");
    let out = run_with(
        &source,
        vec![ScriptStep::Gone("file:///docs/a.md".to_string())],
        incomplete("partial"),
        index_of(&[&a, &b]),
        &store,
        &FakeEmbedder::Good,
        &make_ingestion_config(),
        DeletionPolicy::Prune,
    );
    assert_eq!(out.result.docs_deleted, 1);
    assert_eq!(out.index.uris(), vec!["file:///docs/b.md"]);
    assert_eq!(out.suppressed, Some(("partial".to_string(), 1)));
}

#[test]
fn rows_that_were_not_there_are_not_counted() {
    let store = FakeStore::new();
    let source = make_path_source("/docs");
    let a = seed_indexed(&store, &source, "file:///docs/a.md", "Alpha.");
    let b = seed_indexed(&store, &source, "file:///docs/b.md", "Bravo.");
    store.chunks.borrow_mut().remove(&a.resource_id);
    let out = run(
        &source,
        vec![
            ScriptStep::Gone("file:///docs/a.md".to_string()),
            ScriptStep::Gone("file:///docs/b.md".to_string()),
        ],
        index_of(&[&a, &b]),
        &store,
    );
    assert!(out.index.is_empty());
    assert_eq!(out.result.docs_deleted, 1);
}

#[test]
fn a_source_whose_only_file_was_renamed_keeps_its_document() {
    let store = FakeStore::new();
    let source = make_path_source("/docs");
    let old_uri = "file:///docs/old-name.md";
    let new_uri = "file:///docs/new-name.md";
    let old = seed_indexed(&store, &source, old_uri, "Same text.");
    let out = run(
        &source,
        vec![ScriptStep::Resource(make_resource(
            new_uri,
            "Same text.",
            &source,
        ))],
        index_of(&[&old]),
        &store,
    );
    assert_eq!(out.result.docs_indexed, 1);
    assert_eq!(out.result.docs_deleted, 0);
    assert!(store.deletes.borrow().is_empty());
    assert!(!store.chunks_for(&old.resource_id).is_empty());
    assert_eq!(out.index.get(old_uri).unwrap().resource_id, old.resource_id);
    assert!(out.index.get(new_uri).is_some());
    assert_eq!(
        out.suppressed,
        Some((
            "this run observed none of the documents this source owns".to_string(),
            2
        ))
    );
}

#[test]
fn a_renamed_file_beside_one_that_stayed_is_swept() {
    let store = FakeStore::new();
    let source = make_path_source("/docs");
    let stays = "file:///docs/stays.md";
    let a = seed_indexed(&store, &source, stays, "Stays.");
    let b = seed_indexed(&store, &source, "file:///docs/old.md", "Moved.");
    let out = run(
        &source,
        vec![
            ScriptStep::Skipped(stays.to_string(), SkipReason::Unchanged),
            ScriptStep::Resource(make_resource("file:///docs/new.md", "Moved.", &source)),
        ],
        index_of(&[&a, &b]),
        &store,
    );
    assert_eq!(out.result.docs_deleted, 1);
    assert_eq!(*store.deletes.borrow(), vec![b.resource_id.clone()]);
    assert!(out.index.get("file:///docs/old.md").is_none());
    assert_eq!(out.index.len(), 2);
}

#[test]
fn prunable_counts_what_a_pruning_run_removes() {
    let run_of = |deletion| {
        let store = FakeStore::new();
        let source = make_path_source("/docs");
        let a = seed_indexed(&store, &source, "file:///docs/a.md", "Alpha.");
        let b = seed_indexed(&store, &source, "file:///docs/b.md", "Bravo.");
        run_with(
            &source,
            vec![
                ScriptStep::Skipped("file:///docs/a.md".to_string(), SkipReason::Unchanged),
                ScriptStep::Gone("file:///docs/a.md".to_string()),
            ],
            Enumeration::Complete,
            index_of(&[&a, &b]),
            &store,
            &FakeEmbedder::Good,
            &make_ingestion_config(),
            deletion,
        )
    };
    let retained = run_of(DeletionPolicy::Retain);
    let pruned = run_of(DeletionPolicy::Prune);
    assert_eq!(retained.result.docs_prunable, 1);
    assert_eq!(retained.index.len(), 2);
    assert_eq!(pruned.result.docs_deleted, 1);
    assert_eq!(pruned.result.docs_prunable, 0);
    assert_eq!(pruned.index.uris(), vec!["file:///docs/b.md"]);
}

#[test]
fn a_retaining_run_reports_that_all_it_owns_is_gone() {
    let run_of = |deletion| {
        let store = FakeStore::new();
        let url = "https://example.com/article";
        let source = make_url_source(url);
        let record = seed_indexed(&store, &source, url, "Article body.");
        run_with(
            &source,
            vec![ScriptStep::Gone(url.to_string())],
            Enumeration::Complete,
            index_of(&[&record]),
            &store,
            &FakeEmbedder::Good,
            &make_ingestion_config(),
            deletion,
        )
    };
    let retained = run_of(DeletionPolicy::Retain);
    assert_eq!(
        retained.suppressed,
        Some((
            "this run observed none of the documents this source owns".to_string(),
            1
        ))
    );
    assert_eq!(retained.result.docs_prunable, 1);
    let pruned = run_of(DeletionPolicy::Prune);
    assert!(pruned.suppressed.is_none());
    assert_eq!(pruned.result.docs_deleted, 1);
}
