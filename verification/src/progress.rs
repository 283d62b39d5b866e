//! Progress of an ingestion run.

use vstd::prelude::*;

verus! {

/// What a completed run did.
#[derive(Clone, Copy, Debug, PartialEq, Eq, Structural)]
pub struct IngestionResult {
    /// Documents seen in the scan.
    pub docs_seen: u64,
    /// Documents indexed: new, or of changed content.
    pub docs_indexed: u64,
    /// Documents skipped.
    pub docs_skipped: u64,
    /// Documents deleted.
    pub docs_deleted: u64,
    /// Chunks written to the store.
    pub chunks_written: u64,
    /// Documents of an unsupported format.
    pub unsupported_format_count: u64,
    /// Documents that could not be processed.
    pub error_count: u64,
    /// Documents that a pruning run would have deleted.
    pub docs_prunable: u64,
}

impl Default for IngestionResult {
    fn default() -> (r: IngestionResult)
        ensures
            r == IngestionResult::zero(),
    {
        IngestionResult {
            docs_seen: 0,
            docs_indexed: 0,
            docs_skipped: 0,
            docs_deleted: 0,
            chunks_written: 0,
            unsupported_format_count: 0,
            error_count: 0,
            docs_prunable: 0,
        }
    }
}

impl IngestionResult {
    /// The result of a run that did nothing.
    pub open spec fn zero() -> IngestionResult {
        IngestionResult {
            docs_seen: 0,
            docs_indexed: 0,
            docs_skipped: 0,
            docs_deleted: 0,
            chunks_written: 0,
            unsupported_format_count: 0,
            error_count: 0,
            docs_prunable: 0,
        }
    }
}

/// What became of one document.
#[derive(Clone, Copy, Debug, PartialEq, Eq, Structural)]
pub enum DocOutcome {
    Indexed { chunks: usize },
    Skipped,
    Unsupported,
    Error,
}

/// One step of a run, as it is reported.
#[derive(Clone, Debug, PartialEq, Eq)]
pub enum ProgressEvent {
    SourceStarted { source_id: String, location: String },
    Discovered { total: usize },
    DocumentStarted { uri: String, index: usize, total: usize },
    DocumentFinished { uri: String, outcome: DocOutcome },
    SourceFinished { result: IngestionResult },
}

/// The mathematical value of a [`ProgressEvent`].
#[verifier::ext_equal]
pub enum ProgressView {
    SourceStarted { source_id: Seq<char>, location: Seq<char> },
    Discovered { total: int },
    DocumentStarted { uri: Seq<char>, index: int, total: int },
    DocumentFinished { uri: Seq<char>, outcome: DocOutcome },
    SourceFinished { result: IngestionResult },
}

impl View for ProgressEvent {
    type V = ProgressView;

    open spec fn view(&self) -> ProgressView {
        match self {
            ProgressEvent::SourceStarted { source_id, location } => ProgressView::SourceStarted {
                source_id: source_id@,
                location: location@,
            },
            ProgressEvent::Discovered { total } => ProgressView::Discovered {
                total: *total as int,
            },
            ProgressEvent::DocumentStarted { uri, index, total } => ProgressView::DocumentStarted {
                uri: uri@,
                index: *index as int,
                total: *total as int,
            },
            ProgressEvent::DocumentFinished { uri, outcome } => ProgressView::DocumentFinished {
                uri: uri@,
                outcome: *outcome,
            },
            ProgressEvent::SourceFinished { result } => ProgressView::SourceFinished {
                result: *result,
            },
        }
    }
}

} // verus!
