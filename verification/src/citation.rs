//! Citations: what a search result is handed out as.

use vstd::prelude::*;

use crate::metadata::Metadata;
use crate::types::Span;

verus! {

/// The store a citation comes from.
#[derive(Clone, Debug, PartialEq, Eq)]
pub struct CitationStore {
    pub id: String,
    pub name: String,
}

/// The block a citation comes from.
#[derive(Clone, Debug, PartialEq, Eq)]
pub struct CitationBlock {
    pub seq: u32,
    pub kind: Option<String>,
    pub page: Option<u32>,
}

/// The position of a chunk in its block.
#[derive(Clone, Copy, Debug, PartialEq, Eq, Structural)]
pub struct ChunkPosition {
    pub seq_in_block: u32,
}

/// The position of a chunk in its document.
#[derive(Clone, Debug, PartialEq, Eq)]
pub struct CitationLocation {
    pub span: Span,
    pub window_block_seqs: Vec<u32>,
}

/// The scores of a citation, as the bits of 64-bit floats.
#[derive(Clone, Copy, Debug, PartialEq, Eq, Structural)]
pub struct Score {
    pub fused: u64,
    pub dense: Option<u64>,
    pub bm25: Option<u64>,
}

/// When and with which content a citation's document was acquired.
#[derive(Clone, Debug, PartialEq, Eq)]
pub struct CitationProvenance {
    pub fetched_at: String,
    pub content_hash: String,
}

/// A search result with everything needed to cite it.
#[derive(Clone, Debug, PartialEq, Eq)]
pub struct Citation {
    pub chunk_id: String,
    pub resource_id: String,
    pub store: CitationStore,
    pub uri: String,
    pub title: Option<String>,
    pub heading_path: Vec<String>,
    pub block: CitationBlock,
    pub chunk_position: ChunkPosition,
    pub location: CitationLocation,
    pub snippet: String,
    pub score: Score,
    pub provenance: CitationProvenance,
    pub metadata: Metadata,
}

} // verus!
