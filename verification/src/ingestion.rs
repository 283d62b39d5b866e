//! Everything about ingestion, by one name.

pub use crate::clock::{format_secs_rfc3339, now_rfc3339};
pub use crate::chunker::{effective_chunker_config, scale_to_chars};
pub use crate::document_index::{DocumentIndex, DocumentRecord};
pub use crate::enumeration::{enumerate_path_source, FoundFile, PathEnumeration};
pub use crate::globs::glob_match;
pub use crate::indexing::{index_resource, is_store_stale, plan_chunking, IndexPlan};
pub use crate::ingestor::{FetchMetadata, FetchResult};
pub use crate::jobs::{
    complete_index_job, create_index_job, fail_index_job, fail_index_job_with_error,
    start_index_job,
};
pub use crate::pipeline::{
    source_location, DeletionPolicy, IndexOutcome, IngestionConfig, PipelineCallback,
};
pub use crate::progress::IngestionResult;
pub use crate::removals::Removals;
