//! Core domain logic of localdb: reading documents into blocks, indexing them,
//! searching them, and the configuration of it all.
#![allow(unused_imports)]

pub mod assembly_laws;
pub mod block;
pub mod chunker;
pub mod citation;
pub mod clock;
pub mod config;
pub mod diagnostics;
pub mod document_index;
pub mod documents;
pub mod duration;
pub mod embedder;
pub mod enumeration;
pub mod enumeration_laws;
pub mod error;
pub mod globs;
pub mod ids;
pub mod indexing;
pub mod ingestion;
pub mod ingestor;
pub mod jobs;
pub mod json;
pub mod markdown_assembler;
pub mod markdown_blocks;
pub mod markdown_events;
pub mod markdown_laws;
pub mod metadata;
pub mod parser;
pub mod pipeline;
pub mod pipeline_laws;
pub mod progress;
pub mod ranking;
pub mod record_laws;
pub mod removals;
pub mod run_laws;
pub mod search;
pub mod search_laws;
pub mod snippet;
pub mod source;
pub mod text;
pub mod text_laws;
pub mod types;
pub mod uri;

pub use block::{Block, BlockKind, BlockLocation};
pub use chunker::ChunkerConfig;
pub use citation::Citation;
pub use diagnostics::{bytes_per_chunk, format_bytes, DbFileSize};
pub use documents::{
    get_document_detail, get_document_detail_scoped, reconstruct_document_text, DocumentDetail,
    DocumentInfo,
};
pub use embedder::{DocumentChunks, EmbeddedDocument, FakeEmbedder, VectorEncoding};
pub use error::Error;
pub use ids::{content_hash, new_ulid};
pub use ingestion::{
    complete_index_job, create_index_job, enumerate_path_source, fail_index_job,
    fail_index_job_with_error, index_resource, is_store_stale, start_index_job, DeletionPolicy,
    DocumentIndex, DocumentRecord, FetchMetadata, FetchResult, FoundFile, IndexOutcome,
    IngestionConfig, IngestionResult, PathEnumeration,
};
pub use ingestor::{
    ConfigField, ConfigFieldType, Enumeration, IngestResult, IngestSource, SkipReason,
};
pub use markdown_blocks::{heading_path_from_blocks, markdown_to_blocks};
pub use metadata::{ConversationMetadata, DublinCoreMetadata, Metadata, TranscriptionMetadata};
pub use parser::{ChainParser, ParsedDocument, Parser, Probe, PROBE_HEADER_LEN};
pub use progress::{DocOutcome, ProgressEvent};
pub use search::{
    clamp_search_limit, rerank_noop, shape_citation, FusedChunkEntry, MetadataFilter, QueryRequest,
    QueryResponse, SearchOrchestrator, SearchResult, StoreHandle, SEARCH_MAX_LIMIT,
};
pub use snippet::truncate_snippet;
pub use source::source_row_to_source;
pub use types::{
    ChunkOutput, ChunkRecord, IndexJob, IndexJobScope, IndexJobState, IndexJobStats, IngestorKind,
    Resource, Source, SourceKind, SourceSpec, Span,
};
pub use uri::Uri;
