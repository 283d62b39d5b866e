//! Indexing one resource: what is chunked, what is embedded and what is written.

use vstd::prelude::*;
use vstd::string::*;

use crate::block::{block_page, block_views, Block, BlockView};
use crate::chunker::{
    borrowed_text, effective_chunker_config, routes_to_code, scale_to_chars, ChunkerConfig,
};
use crate::embedder::{DocumentChunks, EmbeddedDocument};
use crate::error::{fails_with, Error, ErrorView};
use crate::metadata::{
    bibliographic, title_backfilled, DublinCoreView, Metadata, MetadataView,
};
use crate::pipeline::{IndexOutcome, IngestionConfig};
use crate::text::{clone_optional, decimal, join, joined, optional_text, same_text, texts, to_decimal};
use crate::types::{ChunkOutput, ChunkRecord, Resource, Source};
use crate::uri::{url_last_segment, Uri};

verus! {

// ---------------------------------------------------------------------------
// Chunking
// ---------------------------------------------------------------------------

/// The file name that a URI hints at: its last path segment, unless empty.
pub open spec fn filename_hint(uri: Seq<char>) -> Option<Seq<char>> {
    match url_last_segment(uri) {
        Some(s) if s.len() > 0 => Some(s),
        _ => None,
    }
}

/// The file name that a URI hints at.
pub fn filename_hint_from_uri(uri: &Uri) -> (r: Option<String>)
    ensures
        optional_text(r) == filename_hint(uri@),
{
    nonempty_segment(uri.last_segment())
}

/// `segment`, unless it is empty.
pub fn nonempty_segment(segment: Option<String>) -> (r: Option<String>)
    ensures
        r == (match segment {
            Some(s) if s@.len() > 0 => Some(s),
            _ => None,
        }),
{
    match segment {
        Some(s) => if s.as_str().unicode_len() > 0 {
            Some(s)
        } else {
            None
        },
        None => None,
    }
}

/// Whether `r` is the chunker configuration for a resource: the source's own
/// unless a prose source meets a file of source code, and for an embedder that
/// cannot count tokens, scaled to characters.
pub open spec fn is_plan(
    r: ChunkerConfig,
    source_preset: Seq<char>,
    base: ChunkerConfig,
    filename: Option<Seq<char>>,
    mime: Option<Seq<char>>,
    counts_tokens: bool,
) -> bool {
    if source_preset == "prose"@ && routes_to_code(filename, mime) {
        r.is_preset("code"@)
    } else if counts_tokens || base.preset@ != "prose"@ {
        r == base
    } else {
        r == (ChunkerConfig {
            preset: base.preset,
            target_tokens: Some((base.target() * 4) as usize),
            overlap_tokens: Some((base.overlap() * 4) as usize),
            window_turns: base.window_turns,
            stride_turns: base.stride_turns,
        })
    }
}

/// The chunker configuration for a resource of the named file.
pub fn plan_chunking_of(
    resource: &Resource,
    source: &Source,
    config: &IngestionConfig,
    filename: Option<&str>,
    counts_tokens: bool,
) -> (r: ChunkerConfig)
    requires
        !counts_tokens && config.chunker.preset@ == "prose"@ ==> config.chunker.target() * 4
            <= usize::MAX && config.chunker.overlap() * 4 <= usize::MAX,
    ensures
        is_plan(
            r,
            source.source_preset@,
            config.chunker,
            borrowed_text(filename),
            optional_text(resource.mime),
            counts_tokens,
        ),
{
    let mime = match &resource.mime {
        Some(m) => Some(m.as_str()),
        None => None,
    };
    let chosen = effective_chunker_config(
        source.source_preset.as_str(),
        &config.chunker,
        filename,
        mime,
    );
    proof {
        reveal_strlit("code");
        reveal_strlit("prose");
        assert("code"@.len() != "prose"@.len());
    }
    if counts_tokens {
        chosen
    } else {
        scale_to_chars(&chosen)
    }
}

/// The chunker configuration for a resource. `counts_tokens` says whether the
/// embedder can count tokens.
pub fn plan_chunking(
    resource: &Resource,
    source: &Source,
    config: &IngestionConfig,
    counts_tokens: bool,
) -> (r: ChunkerConfig)
    requires
        !counts_tokens && config.chunker.preset@ == "prose"@ ==> config.chunker.target() * 4
            <= usize::MAX && config.chunker.overlap() * 4 <= usize::MAX,
    ensures
        is_plan(
            r,
            source.source_preset@,
            config.chunker,
            filename_hint(resource.uri@),
            optional_text(resource.mime),
            counts_tokens,
        ),
{
    let hint = filename_hint_from_uri(&resource.uri);
    match &hint {
        Some(name) => plan_chunking_of(
            resource,
            source,
            config,
            Some(name.as_str()),
            counts_tokens,
        ),
        None => plan_chunking_of(resource, source, config, None, counts_tokens),
    }
}

// ---------------------------------------------------------------------------
// Embedding
// ---------------------------------------------------------------------------

/// The texts of a run of blocks.
pub open spec fn block_texts(blocks: Seq<BlockView>) -> Seq<Seq<char>> {
    blocks.map_values(|b: BlockView| b.text)
}

/// The texts of a run of chunks.
pub open spec fn chunk_texts(chunks: Seq<ChunkOutput>) -> Seq<Seq<char>> {
    chunks.map_values(|c: ChunkOutput| c.text@)
}

/// The texts of `blocks`.
pub fn texts_of_blocks(blocks: &[Block]) -> (r: Vec<String>)
    ensures
        texts(r@) == block_texts(block_views(blocks@)),
{
    let mut out: Vec<String> = Vec::new();
    let n: usize = blocks.len();
    let mut i: usize = 0;
    while i < n
        invariant
            0 <= i <= n,
            n == blocks@.len(),
            out@.len() == i,
            forall|k: int| 0 <= k < i ==> (#[trigger] out@[k])@ == blocks@[k].text@,
        decreases n - i,
    {
        out.push(blocks[i].text.clone());
        i += 1;
    }
    proof {
        assert(texts(out@) =~= block_texts(block_views(blocks@)));
    }
    out
}

/// What is embedded for a resource: its chunks, with the texts of its blocks,
/// paragraphs apart, as their context.
pub fn document_chunks(resource: &Resource, outputs: &[ChunkOutput]) -> (r: DocumentChunks)
    ensures
        r.document_context@ == joined(block_texts(block_views(resource.blocks@)), "\n\n"@),
        texts(r.chunks@) == chunk_texts(outputs@),
{
    let context = texts_of_blocks(resource.blocks.as_slice());
    let mut chunks: Vec<String> = Vec::new();
    let n: usize = outputs.len();
    let mut i: usize = 0;
    while i < n
        invariant
            0 <= i <= n,
            n == outputs@.len(),
            chunks@.len() == i,
            forall|k: int| 0 <= k < i ==> (#[trigger] chunks@[k])@ == outputs@[k].text@,
        decreases n - i,
    {
        chunks.push(outputs[i].text.clone());
        i += 1;
    }
    proof {
        assert(texts(chunks@) =~= chunk_texts(outputs@));
    }
    DocumentChunks { document_context: join(context.as_slice(), "\n\n"), chunks }
}

// ---------------------------------------------------------------------------
// Records
// ---------------------------------------------------------------------------

/// The page of the block numbered `seq`: that of the last one with this number
/// and a page.
pub open spec fn page_of(blocks: Seq<BlockView>, seq: int) -> Option<u32>
    decreases blocks.len(),
{
    if blocks.len() == 0 {
        None
    } else if blocks.last().seq == seq && block_page(blocks.last()) is Some {
        block_page(blocks.last())
    } else {
        page_of(blocks.drop_last(), seq)
    }
}

fn find_page(blocks: &[Block], seq: u32) -> (r: Option<u32>)
    ensures
        r == page_of(block_views(blocks@), seq as int),
{
    let ghost views = block_views(blocks@);
    let mut i: usize = blocks.len();
    proof {
        assert(views.take(i as int) =~= views);
    }
    while i > 0
        invariant
            0 <= i <= blocks@.len(),
            views == block_views(blocks@),
            page_of(views, seq as int) == page_of(views.take(i as int), seq as int),
        decreases i,
    {
        let b = &blocks[i - 1];
        proof {
            assert(views.take(i as int).last() == b@);
            assert(views.take(i as int).drop_last() =~= views.take(i - 1));
        }
        if b.seq == seq {
            if let Some(location) = &b.location {
                if location.page.is_some() {
                    return location.page;
                }
            }
        }
        i -= 1;
    }
    None
}

/// Whether `r` is the record of the chunk `c` of `resource`, embedded as
/// `embedding`.
pub open spec fn is_record(
    r: ChunkRecord,
    resource: Resource,
    config: IngestionConfig,
    c: ChunkOutput,
    embedding: Seq<u32>,
) -> bool {
    &&& r.id == c.id
    &&& r.resource_id == resource.id
    &&& r.store_id == config.store_id
    &&& r.text == c.text
    &&& r.span == c.span
    &&& r.heading_path == c.heading_path
    &&& r.embedding@ == embedding
    &&& r.policy_version == config.policy_version
    &&& r.fetched_at == resource.added_at
    &&& r.content_hash == resource.content_hash
    &&& r.origin_store == config.store_id
    &&& r.source_id == resource.source_id
    &&& r.ingestor_kind@ == resource.ingestor_kind.name()
    &&& r.mime == resource.mime
    &&& r.uri@ == resource.uri@
    &&& r.metadata@ == title_backfilled(resource.metadata@, optional_text(resource.title))
    &&& r.block_seq == c.block_seq
    &&& r.seq_in_block == c.seq_in_block
    &&& r.block_kind == c.block_kind
    &&& r.page == page_of(block_views(resource.blocks@), c.block_seq as int)
    &&& r.window_block_seqs == c.window_block_seqs
}

fn clone_words(v: &Vec<u32>) -> (r: Vec<u32>)
    ensures
        r@ == v@,
{
    let mut out: Vec<u32> = Vec::new();
    let n: usize = v.len();
    let mut i: usize = 0;
    while i < n
        invariant
            0 <= i <= n,
            n == v@.len(),
            out@ =~= v@.take(i as int),
        decreases n - i,
    {
        out.push(v[i]);
        i += 1;
    }
    out
}

fn build_record(
    resource: &Resource,
    config: &IngestionConfig,
    metadata: &Metadata,
    c: ChunkOutput,
    embedding: &Vec<u32>,
) -> (r: ChunkRecord)
    requires
        metadata@ == title_backfilled(resource.metadata@, optional_text(resource.title)),
    ensures
        is_record(r, *resource, *config, c, embedding@),
{
    let page = find_page(resource.blocks.as_slice(), c.block_seq);
    ChunkRecord {
        id: c.id,
        resource_id: resource.id.clone(),
        store_id: config.store_id.clone(),
        text: c.text,
        span: c.span,
        heading_path: c.heading_path,
        embedding: clone_words(embedding),
        policy_version: config.policy_version.clone(),
        fetched_at: resource.added_at.clone(),
        content_hash: resource.content_hash.clone(),
        origin_store: config.store_id.clone(),
        source_id: resource.source_id.clone(),
        ingestor_kind: resource.ingestor_kind.as_str().to_owned(),
        mime: clone_optional(&resource.mime),
        uri: resource.uri.as_str().to_owned(),
        metadata: metadata.clone(),
        block_seq: c.block_seq,
        seq_in_block: c.seq_in_block,
        block_kind: c.block_kind,
        page,
        window_block_seqs: c.window_block_seqs,
    }
}

/// What to write for a resource.
pub enum IndexPlan {
    /// The resource gave no chunks: write nothing and delete nothing.
    Empty,
    /// Write these records, in place of the resource that they replace.
    Write(Vec<ChunkRecord>),
}

impl IndexPlan {
    /// The outcome once the plan was carried out.
    pub fn outcome(&self) -> (r: IndexOutcome)
        ensures
            r == (match *self {
                IndexPlan::Empty => IndexOutcome::Empty,
                IndexPlan::Write(records) => IndexOutcome::Written(records@.len() as usize),
            }),
    {
        match self {
            IndexPlan::Empty => IndexOutcome::Empty,
            IndexPlan::Write(records) => IndexOutcome::Written(records.len()),
        }
    }
}

/// The error for an embedder that returned `count` documents for one.
pub open spec fn document_count_error(count: int) -> ErrorView {
    ErrorView::Internal {
        message: "embedder returned "@ + decimal(count)
            + " EmbeddedDocuments for 1 input document"@,
        correlation_id: "embed_count_mismatch"@,
    }
}

/// The error for an embedder that returned `vectors` vectors for `chunks`
/// chunks.
pub open spec fn vector_count_error(vectors: int, chunks: int) -> ErrorView {
    ErrorView::Internal {
        message: "embedder returned "@ + decimal(vectors) + " vectors for "@ + decimal(chunks)
            + " chunks"@,
        correlation_id: "embed_chunk_count_mismatch"@,
    }
}

/// What to write for a resource that was cut into `outputs` and embedded as
/// `embedded`. A resource without chunks leaves everything as it is; otherwise
/// the embedder must have returned one document with one vector per chunk.
pub fn index_resource(
    resource: &Resource,
    config: &IngestionConfig,
    outputs: Vec<ChunkOutput>,
    embedded: &[EmbeddedDocument],
) -> (r: Result<IndexPlan, Error>)
    ensures
        outputs@.len() == 0 ==> r == Ok::<IndexPlan, Error>(IndexPlan::Empty),
        outputs@.len() > 0 && embedded@.len() != 1 ==> fails_with(
            r,
            document_count_error(embedded@.len() as int),
        ),
        outputs@.len() > 0 && embedded@.len() == 1 && embedded@[0]@.len() != outputs@.len()
            ==> fails_with(
            r,
            vector_count_error(embedded@[0]@.len() as int, outputs@.len() as int),
        ),
        outputs@.len() > 0 && embedded@.len() == 1 && embedded@[0]@.len() == outputs@.len() ==> (
        match r {
            Ok(IndexPlan::Write(records)) => {
                &&& records@.len() == outputs@.len()
                &&& forall|i: int|
                    0 <= i < records@.len() ==> is_record(
                        #[trigger] records@[i],
                        *resource,
                        *config,
                        outputs@[i],
                        embedded@[0]@[i]@,
                    )
            },
            _ => false,
        }),
{
    let n: usize = outputs.len();
    if n == 0 {
        return Ok(IndexPlan::Empty);
    }
    if embedded.len() != 1 {
        let mut message = "embedder returned ".to_owned();
        message.append(to_decimal(embedded.len() as u64).as_str());
        message.append(" EmbeddedDocuments for 1 input document");
        return Err(
            Error::Internal { message, correlation_id: "embed_count_mismatch".to_owned() },
        );
    }
    if embedded[0].len() != n {
        let mut message = "embedder returned ".to_owned();
        message.append(to_decimal(embedded[0].len() as u64).as_str());
        message.append(" vectors for ");
        message.append(to_decimal(n as u64).as_str());
        message.append(" chunks");
        return Err(
            Error::Internal { message, correlation_id: "embed_chunk_count_mismatch".to_owned() },
        );
    }
    let mut metadata = resource.metadata.clone();
    metadata.backfill_title(&resource.title);
    let ghost all = outputs@;
    let mut records: Vec<ChunkRecord> = Vec::new();
    let mut i: usize = 0;
    for c in it: outputs
        invariant
            it.seq() == all,
            i == it.index(),
            n == all.len(),
            embedded@.len() == 1,
            embedded@[0]@.len() == n,
            records@.len() == i,
            metadata@ == title_backfilled(resource.metadata@, optional_text(resource.title)),
            forall|k: int|
                0 <= k < i ==> is_record(
                    #[trigger] records@[k],
                    *resource,
                    *config,
                    all[k],
                    embedded@[0]@[k]@,
                ),
    {
        records.push(build_record(resource, config, &metadata, c, &embedded[0][i]));
        i += 1;
    }
    Ok(IndexPlan::Write(records))
}

/// Whether what a store holds was indexed under another policy. An empty store,
/// or one of which no chunk could be sampled, is not stale.
pub fn is_store_stale(
    chunk_count: u64,
    sampled_policy_version: Option<&str>,
    current_policy_version: &str,
) -> (r: bool)
    ensures
        r == (chunk_count > 0 && sampled_policy_version is Some && borrowed_text(
            sampled_policy_version,
        ) != Some(current_policy_version@)),
{
    if chunk_count == 0 {
        return false;
    }
    match sampled_policy_version {
        Some(v) => !same_text(v, current_policy_version),
        None => false,
    }
}

/// The title of a resource's metadata wins over the title of the resource.
pub proof fn law_own_title_wins(m: MetadataView, title: Option<Seq<char>>)
    requires
        bibliographic(m).title is Some,
    ensures
        title_backfilled(m, title) == m,
{
}

/// A title is filled in where the metadata has none, and nothing else changes.
pub proof fn law_missing_title_is_filled(m: MetadataView, title: Seq<char>)
    requires
        bibliographic(m).title is None,
    ensures
        bibliographic(title_backfilled(m, Some(title))) == (DublinCoreView {
            title: Some(title),
            ..bibliographic(m)
        }),
        title_backfilled(m, None) == m,
{
}

} // verus!
