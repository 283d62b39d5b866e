//! Sources, resources, chunks and jobs.

use vstd::prelude::*;
use vstd::string::*;

use crate::block::Block;
use crate::metadata::Metadata;
use crate::uri::Uri;

verus! {

/// What a source is read from.
#[derive(Clone, Copy, Debug, PartialEq, Eq, Structural)]
pub enum SourceKind {
    Path,
    Url,
    Feed,
}

/// What a source reads, by kind.
#[derive(Clone, Debug, PartialEq, Eq)]
pub enum SourceSpec {
    Path { root: String, includes: Vec<String>, exclude: Vec<String> },
    Url { url: String, refresh_interval_secs: Option<u64> },
    Feed {
        url: String,
        max_entries: Option<u32>,
        fetch_full_content: bool,
        refresh_interval_secs: Option<u64>,
    },
}

/// A configured source of a store.
#[derive(Clone, Debug, PartialEq, Eq)]
pub struct Source {
    pub id: String,
    pub store_id: String,
    pub kind: SourceKind,
    pub spec: SourceSpec,
    pub source_preset: String,
}

/// How a resource was acquired.
#[derive(Clone, Copy, Debug, PartialEq, Eq, Structural)]
pub enum IngestorKind {
    File,
    Url,
    Feed,
}

impl IngestorKind {
    /// The stored name of this kind.
    pub open spec fn name(self) -> Seq<char> {
        match self {
            IngestorKind::File => "path"@,
            IngestorKind::Url => "url"@,
            IngestorKind::Feed => "feed"@,
        }
    }

    /// The stored name of this kind.
    pub fn as_str(&self) -> (r: &'static str)
        ensures
            r@ == self.name(),
    {
        match self {
            IngestorKind::File => "path",
            IngestorKind::Url => "url",
            IngestorKind::Feed => "feed",
        }
    }
}

/// A document as an ingestor hands it over: acquired, extracted and hashed.
#[derive(Clone, Debug, PartialEq, Eq)]
pub struct Resource {
    pub id: String,
    pub store_id: String,
    pub source_id: String,
    pub ingestor_kind: IngestorKind,
    pub uri: Uri,
    pub content_hash: String,
    pub title: Option<String>,
    pub mime: Option<String>,
    pub metadata: Metadata,
    /// When the store acquired the resource.
    pub added_at: String,
    /// When the origin says the resource last changed.
    pub modified_at: String,
    pub blocks: Vec<Block>,
}

/// A range of bytes of a document.
#[derive(Clone, Copy, Debug, PartialEq, Eq, Structural)]
pub struct Span {
    pub start: usize,
    pub end: usize,
}

impl Span {
    pub fn new(start: usize, end: usize) -> (r: Span)
        ensures
            r == (Span { start, end }),
    {
        Span { start, end }
    }
}

/// A piece of a document as the chunker cut it.
#[derive(Clone, Debug, PartialEq, Eq)]
pub struct ChunkOutput {
    pub id: String,
    pub text: String,
    pub span: Span,
    pub heading_path: Vec<String>,
    pub block_seq: u32,
    pub seq_in_block: u32,
    pub block_kind: Option<String>,
    pub window_block_seqs: Vec<u32>,
}

/// A chunk as a store keeps it. The embedding holds the bits of 32-bit floats.
#[derive(Clone, Debug, PartialEq, Eq)]
pub struct ChunkRecord {
    pub id: String,
    pub resource_id: String,
    pub store_id: String,
    pub text: String,
    pub span: Span,
    pub heading_path: Vec<String>,
    pub embedding: Vec<u32>,
    pub policy_version: String,
    pub fetched_at: String,
    pub content_hash: String,
    pub origin_store: String,
    pub source_id: String,
    pub ingestor_kind: String,
    pub mime: Option<String>,
    pub uri: String,
    pub metadata: Metadata,
    pub block_seq: u32,
    pub seq_in_block: u32,
    pub block_kind: Option<String>,
    pub page: Option<u32>,
    pub window_block_seqs: Vec<u32>,
}

/// What an indexing job covers.
#[derive(Clone, Debug, PartialEq, Eq)]
pub enum IndexJobScope {
    /// Every source of the store.
    Store,
    /// One source of the store.
    Source { source_id: String },
}

/// The state of an indexing job.
#[derive(Clone, Copy, Debug, PartialEq, Eq, Structural)]
pub enum IndexJobState {
    Pending,
    Running,
    Done,
    Failed,
}

/// The counters of an indexing job.
#[derive(Clone, Copy, Debug, PartialEq, Eq, Structural)]
pub struct IndexJobStats {
    pub docs_seen: u64,
    pub docs_indexed: u64,
    pub docs_skipped: u64,
    pub docs_deleted: u64,
    pub chunks_written: u64,
    pub unsupported_format_count: u64,
    pub error_count: u64,
}

impl Default for IndexJobStats {
    fn default() -> (r: IndexJobStats)
        ensures
            r == (IndexJobStats {
                docs_seen: 0,
                docs_indexed: 0,
                docs_skipped: 0,
                docs_deleted: 0,
                chunks_written: 0,
                unsupported_format_count: 0,
                error_count: 0,
            }),
    {
        IndexJobStats {
            docs_seen: 0,
            docs_indexed: 0,
            docs_skipped: 0,
            docs_deleted: 0,
            chunks_written: 0,
            unsupported_format_count: 0,
            error_count: 0,
        }
    }
}

/// An indexing job.
#[derive(Clone, Debug, PartialEq, Eq)]
pub struct IndexJob {
    pub id: String,
    pub store_id: String,
    pub scope: IndexJobScope,
    pub state: IndexJobState,
    pub stats: IndexJobStats,
    pub error: Option<String>,
    pub error_code: Option<String>,
    pub created_at: String,
    pub started_at: Option<String>,
    pub completed_at: Option<String>,
}

} // verus!
