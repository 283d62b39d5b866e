//! Reading one document back.

use vstd::prelude::*;
use vstd::string::*;

use crate::block::{block_views, Block};
use crate::error::{fails_with, Error, ErrorView};
use crate::indexing::{block_texts, texts_of_blocks};
use crate::metadata::Metadata;
use crate::text::{join, joined, optional_text, same_text, texts};
use crate::types::ChunkRecord;

verus! {

/// What a store knows of a document.
#[derive(Clone, Debug, PartialEq, Eq)]
pub struct DocumentInfo {
    pub store_id: String,
    pub id: String,
    pub source_id: String,
    pub ingestor_kind: String,
    pub uri: String,
    pub title: Option<String>,
    pub mime: Option<String>,
    pub content_hash: String,
    pub fetched_at: String,
    pub origin_store: String,
    pub policy_version: String,
    pub metadata: Metadata,
}

/// A document, with its text where it was asked for.
#[derive(Debug)]
pub struct DocumentDetail {
    pub info: DocumentInfo,
    pub text: Option<String>,
    pub chunk_count: Option<usize>,
}

/// The texts of a run of chunks.
pub open spec fn record_texts(chunks: Seq<ChunkRecord>) -> Seq<Seq<char>> {
    chunks.map_values(|c: ChunkRecord| c.text@)
}

/// The text of a document: its blocks, paragraphs apart, or where none were
/// kept its chunks, line by line.
pub open spec fn document_text(chunks: Seq<ChunkRecord>, blocks: Seq<Block>) -> Seq<char> {
    if blocks.len() == 0 {
        joined(record_texts(chunks), "\n"@)
    } else {
        joined(block_texts(block_views(blocks)), "\n\n"@)
    }
}

/// The text of a document, put together from its blocks or its chunks.
pub fn reconstruct_document_text(chunks: &[ChunkRecord], blocks: &[Block]) -> (r: String)
    ensures
        r@ == document_text(chunks@, blocks@),
{
    if blocks.len() > 0 {
        let parts = texts_of_blocks(blocks);
        return join(parts.as_slice(), "\n\n");
    }
    let mut parts: Vec<String> = Vec::new();
    let n: usize = chunks.len();
    let mut i: usize = 0;
    while i < n
        invariant
            0 <= i <= n,
            n == chunks@.len(),
            parts@.len() == i,
            forall|k: int| 0 <= k < i ==> (#[trigger] parts@[k])@ == chunks@[k].text@,
        decreases n - i,
    {
        parts.push(chunks[i].text.clone());
        i += 1;
    }
    proof {
        assert(texts(parts@) =~= record_texts(chunks@));
    }
    join(parts.as_slice(), "\n")
}

/// What is kept of a document's content.
pub struct DocumentContent {
    pub chunks: Vec<ChunkRecord>,
    pub blocks: Vec<Block>,
}

/// The detail of a document that was looked up: not found, or found and with the
/// content that was fetched for it.
pub fn get_document_detail(
    doc_id: &str,
    found: Option<DocumentInfo>,
    content: Option<&DocumentContent>,
) -> (r: Result<DocumentDetail, Error>)
    ensures
        found is None ==> fails_with(r, ErrorView::ResourceNotFound { id: doc_id@ }),
        found is Some ==> r is Ok,
        r matches Ok(detail) ==> found == Some(detail.info) && match content {
            Some(c) => optional_text(detail.text) == Some(document_text(c.chunks@, c.blocks@))
                && detail.chunk_count == Some(c.chunks@.len() as usize),
            None => detail.text is None && detail.chunk_count is None,
        },
{
    match found {
        None => Err(Error::ResourceNotFound { id: doc_id.to_owned() }),
        Some(info) => match content {
            Some(c) => {
                let text = reconstruct_document_text(c.chunks.as_slice(), c.blocks.as_slice());
                Ok(DocumentDetail { info, text: Some(text), chunk_count: Some(c.chunks.len()) })
            },
            None => Ok(DocumentDetail { info, text: None, chunk_count: None }),
        },
    }
}

/// The store that a lookup is restricted to: the only one that is allowed. Where
/// none or several are, the lookup goes over all stores.
pub fn lookup_scope(allowed_store_ids: &[String]) -> (r: Option<&str>)
    ensures
        r is Some == (allowed_store_ids@.len() == 1),
        r matches Some(id) ==> id@ == allowed_store_ids@[0]@,
{
    if allowed_store_ids.len() == 1 {
        Some(allowed_store_ids[0].as_str())
    } else {
        None
    }
}

/// Whether `id` is one of `ids`.
pub open spec fn is_one_of(id: Seq<char>, ids: Seq<String>) -> bool {
    exists|i: int| 0 <= i < ids.len() && (#[trigger] ids[i])@ == id
}

/// The detail that a lookup over [`lookup_scope`] gave, restricted to the
/// allowed stores. With several, a document of any other is not found; with none
/// or one, the lookup has the last word.
pub fn get_document_detail_scoped(
    doc_id: &str,
    allowed_store_ids: &[String],
    looked_up: Result<DocumentDetail, Error>,
) -> (r: Result<DocumentDetail, Error>)
    ensures
        allowed_store_ids@.len() <= 1 || looked_up is Err ==> r == looked_up,
        allowed_store_ids@.len() > 1 ==> (looked_up matches Ok(detail) ==> if is_one_of(
            detail.info.store_id@,
            allowed_store_ids@,
        ) {
            r == looked_up
        } else {
            fails_with(r, ErrorView::ResourceNotFound { id: doc_id@ })
        }),
{
    let n: usize = allowed_store_ids.len();
    if n <= 1 {
        return looked_up;
    }
    match looked_up {
        Err(e) => Err(e),
        Ok(detail) => {
            let mut i: usize = 0;
            while i < n
                invariant
                    0 <= i <= n,
                    n == allowed_store_ids@.len(),
                    n > 1,
                    looked_up == Ok::<DocumentDetail, Error>(detail),
                    forall|k: int|
                        0 <= k < i ==> (#[trigger] allowed_store_ids@[k])@
                            != detail.info.store_id@,
                decreases n - i,
            {
                if same_text(allowed_store_ids[i].as_str(), detail.info.store_id.as_str()) {
                    proof {
                        assert(is_one_of(detail.info.store_id@, allowed_store_ids@));
                    }
                    return Ok(detail);
                }
                i += 1;
            }
            Err(Error::ResourceNotFound { id: doc_id.to_owned() })
        },
    }
}

/// A document that comes through a scoped lookup of several stores lies in one
/// of them.
pub proof fn law_scoped_detail_is_allowed(
    allowed: Seq<String>,
    detail: DocumentDetail,
    r: Result<DocumentDetail, Error>,
)
    requires
        allowed.len() > 1,
        if is_one_of(detail.info.store_id@, allowed) {
            r == Ok::<DocumentDetail, Error>(detail)
        } else {
            r is Err
        },
        r is Ok,
    ensures
        is_one_of(r->Ok_0.info.store_id@, allowed),
{
}

/// A store is one of the allowed ones if and only if it is listed.
pub proof fn law_allowed_is_listed(id: String, ids: Seq<String>)
    ensures
        ids.contains(id) ==> is_one_of(id@, ids),
        is_one_of(id@, ids) ==> exists|i: int| 0 <= i < ids.len() && (#[trigger] ids[i])@ == id@,
        ids.len() == 0 ==> !is_one_of(id@, ids),
{
    if ids.contains(id) {
        let i = ids.index_of(id);
        assert(ids[i]@ == id@);
    }
}

} // verus!
