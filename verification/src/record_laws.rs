//! What is chunked, embedded, written and read back of a document, and what a run
//! records of it.

use vstd::prelude::*;
use vstd::string::*;

use crate::block::{block_page, block_views, Block, BlockView};
use crate::chunker::{extension_of, is_code_extension, is_code_mime, routes_to_code, ChunkerConfig};
use crate::documents::{document_text, record_texts};
use crate::error::{Error, ErrorView};
use crate::indexing::{
    block_texts, chunk_texts, document_count_error, filename_hint, is_plan, is_record, page_of,
    vector_count_error,
};
use crate::ingestor::{Enumeration, SkipReason};
use crate::metadata::{bibliographic, title_backfilled, MetadataView};
use crate::pipeline::{
    after_index, after_skip, index_outcome_of, location_of, skip_outcome, started_event, step_for,
    suppression, DeletionPolicy, IndexOutcome, IngestionConfig, RunView, StepView,
};
use crate::progress::{DocOutcome, ProgressView};
use crate::removals::final_index;
use crate::text::{decimal, joined, occurs_at, optional_text};
use crate::text_laws::{
    contains_text, laid_out, law_joined_holds_every_part, law_joined_is_laid_out,
};
use crate::types::{ChunkOutput, ChunkRecord, Resource, SourceSpec};
use crate::uri::url_last_segment;

verus! {

// ---------------------------------------------------------------------------
// Reading back
// ---------------------------------------------------------------------------

/// The texts of blocks and of chunks are those of each of them, whatever its kind,
/// in order.
pub proof fn law_every_block_and_chunk_has_its_text(
    blocks: Seq<BlockView>,
    outputs: Seq<ChunkOutput>,
    records: Seq<ChunkRecord>,
    i: int,
)
    ensures
        block_texts(blocks).len() == blocks.len(),
        chunk_texts(outputs).len() == outputs.len(),
        record_texts(records).len() == records.len(),
        0 <= i < blocks.len() ==> block_texts(blocks)[i] == blocks[i].text,
        0 <= i < outputs.len() ==> chunk_texts(outputs)[i] == outputs[i].text@,
        0 <= i < records.len() ==> record_texts(records)[i] == records[i].text@,
{
}

/// The text of a document holds that of every block, whole and in order, a blank
/// line apart; where no blocks were kept, that of every chunk, a line end apart.
pub proof fn law_document_text_holds_every_block(chunks: Seq<ChunkRecord>, blocks: Seq<Block>)
    ensures
        blocks.len() > 0 ==> laid_out(
            document_text(chunks, blocks),
            Seq::new(blocks.len(), |i: int| blocks[i].text@),
            seq!['\n', '\n'],
        ),
        blocks.len() == 0 ==> laid_out(
            document_text(chunks, blocks),
            Seq::new(chunks.len(), |i: int| chunks[i].text@),
            seq!['\n'],
        ),
        forall|i: int|
            0 <= i < blocks.len() ==> contains_text(
                document_text(chunks, blocks),
                (#[trigger] blocks[i]).text@,
            ),
        blocks.len() == 0 ==> forall|i: int|
            0 <= i < chunks.len() ==> contains_text(
                document_text(chunks, blocks),
                (#[trigger] chunks[i]).text@,
            ),
{
    reveal_strlit("\n\n");
    reveal_strlit("\n");
    assert("\n\n"@ =~= seq!['\n', '\n']);
    assert("\n"@ =~= seq!['\n']);
    let parts = Seq::new(blocks.len(), |i: int| blocks[i].text@);
    let pieces = Seq::new(chunks.len(), |i: int| chunks[i].text@);
    assert(block_texts(block_views(blocks)) =~= parts);
    assert(record_texts(chunks) =~= pieces);
    law_joined_is_laid_out(parts, "\n\n"@);
    law_joined_is_laid_out(pieces, "\n"@);
    assert forall|i: int| 0 <= i < blocks.len() implies contains_text(
        document_text(chunks, blocks),
        (#[trigger] blocks[i]).text@,
    ) by {
        law_joined_holds_every_part(parts, "\n\n"@, i, i);
    }
    if blocks.len() == 0 {
        assert forall|i: int| 0 <= i < chunks.len() implies contains_text(
            document_text(chunks, blocks),
            (#[trigger] chunks[i]).text@,
        ) by {
            law_joined_holds_every_part(pieces, "\n"@, i, i);
        }
    }
}

/// The context that chunks are embedded in holds the text of every block of the
/// document, in order.
pub proof fn law_context_holds_every_block(resource: Resource, i: int)
    requires
        0 <= i < resource.blocks@.len(),
    ensures
        contains_text(
            joined(block_texts(block_views(resource.blocks@)), "\n\n"@),
            resource.blocks@[i].text@,
        ),
{
    law_joined_holds_every_part(block_texts(block_views(resource.blocks@)), "\n\n"@, i, i);
}

// ---------------------------------------------------------------------------
// Records
// ---------------------------------------------------------------------------

/// The page of a chunk is that of the last block of its number that has a page;
/// where none has, there is none.
pub proof fn law_page_is_that_of_the_block(blocks: Seq<BlockView>, seq: int, k: int)
    ensures
        0 <= k < blocks.len() && blocks[k].seq == seq && block_page(blocks[k]) is Some && (
        forall|j: int|
            k < j < blocks.len() ==> (#[trigger] blocks[j]).seq != seq || block_page(blocks[j]) is None)
            ==> page_of(blocks, seq) == block_page(blocks[k]),
        (forall|j: int|
            0 <= j < blocks.len() ==> (#[trigger] blocks[j]).seq != seq || block_page(blocks[j]) is None)
            ==> page_of(blocks, seq) is None,
    decreases blocks.len(),
{
    if blocks.len() > 0 {
        let front = blocks.drop_last();
        let last = blocks.last();
        law_page_is_that_of_the_block(front, seq, k);
        assert(blocks[blocks.len() - 1] == last);
        if 0 <= k < front.len() && (forall|j: int|
            k < j < blocks.len() ==> (#[trigger] blocks[j]).seq != seq || block_page(blocks[j]) is None) {
            assert(blocks[blocks.len() - 1].seq != seq || block_page(blocks[blocks.len() - 1]) is None);
            assert forall|j: int| k < j < front.len() implies (#[trigger] front[j]).seq != seq
                || block_page(front[j]) is None by {
                assert(front[j] == blocks[j]);
            }
            assert(front[k] == blocks[k]);
        }
        if forall|j: int|
            0 <= j < blocks.len() ==> (#[trigger] blocks[j]).seq != seq || block_page(blocks[j]) is None {
            assert(blocks[blocks.len() - 1].seq != seq || block_page(blocks[blocks.len() - 1]) is None);
            assert forall|j: int| 0 <= j < front.len() implies (#[trigger] front[j]).seq != seq
                || block_page(front[j]) is None by {
                assert(front[j] == blocks[j]);
            }
        }
    }
}

/// Where blocks are numbered apart, a chunk has the page of its block.
pub proof fn law_chunk_lies_on_the_page_of_its_block(blocks: Seq<BlockView>, k: int)
    requires
        0 <= k < blocks.len(),
        forall|i: int, j: int|
            0 <= i < j < blocks.len() ==> (#[trigger] blocks[i]).seq != (#[trigger] blocks[j]).seq,
    ensures
        page_of(blocks, blocks[k].seq) == (match blocks[k].location {
            Some(location) => location.page,
            None => None,
        }),
{
    let seq = blocks[k].seq;
    assert forall|j: int| k < j < blocks.len() implies (#[trigger] blocks[j]).seq != seq by {
        assert(blocks[k].seq != blocks[j].seq);
    }
    assert forall|j: int| 0 <= j < k implies (#[trigger] blocks[j]).seq != seq by {
        assert(blocks[j].seq != blocks[k].seq);
    }
    law_page_is_that_of_the_block(blocks, seq, k);
}

/// A record holds what the chunk, its resource, the run and the embedder say of it:
/// nothing of it is left out or taken from elsewhere.
pub proof fn law_records_say_what_they_are_made_of(
    r: ChunkRecord,
    resource: Resource,
    config: IngestionConfig,
    c: ChunkOutput,
    embedding: Seq<u32>,
)
    requires
        is_record(r, resource, config, c, embedding),
    ensures
        r.id == c.id && r.text == c.text && r.span == c.span,
        r.heading_path == c.heading_path,
        r.block_seq == c.block_seq && r.seq_in_block == c.seq_in_block,
        r.block_kind == c.block_kind,
        r.window_block_seqs == c.window_block_seqs,
        r.resource_id == resource.id,
        r.source_id == resource.source_id,
        r.content_hash == resource.content_hash,
        r.uri@ == resource.uri@,
        r.mime == resource.mime,
        r.fetched_at == resource.added_at,
        r.store_id == config.store_id,
        r.origin_store == config.store_id,
        r.policy_version == config.policy_version,
        r.embedding@ == embedding,
        r.page == page_of(block_views(resource.blocks@), c.block_seq as int),
        resource.ingestor_kind is File ==> r.ingestor_kind@ == "path"@,
        resource.ingestor_kind is Url ==> r.ingestor_kind@ == "url"@,
        resource.ingestor_kind is Feed ==> r.ingestor_kind@ == "feed"@,
        bibliographic(resource.metadata@).title is Some ==> r.metadata@ == resource.metadata@,
        bibliographic(resource.metadata@).title is None ==> bibliographic(r.metadata@).title
            == optional_text(resource.title),
{
}

/// Filling in a title keeps the kind of the metadata.
pub proof fn law_backfill_keeps_the_kind(m: MetadataView, title: Option<Seq<char>>)
    ensures
        m is Document <==> title_backfilled(m, title) is Document,
        m is Conversation <==> title_backfilled(m, title) is Conversation,
        m is Transcription <==> title_backfilled(m, title) is Transcription,
        m matches MetadataView::Document(d) ==> bibliographic(m) == d,
        m matches MetadataView::Conversation(d) ==> bibliographic(m) == d,
        m matches MetadataView::Transcription(d) ==> bibliographic(m) == d,
{
}

// ---------------------------------------------------------------------------
// Chunking
// ---------------------------------------------------------------------------

/// An extension is what stands behind the last dot, and there is none without a
/// dot.
pub proof fn law_extension_stands_behind_last_dot(name: Seq<char>)
    ensures
        extension_of(name) is None <==> !name.contains('.'),
        extension_of(name) matches Some(e) ==> {
            let dot = name.len() - e.len() - 1;
            &&& 0 <= dot
            &&& name[dot] == '.'
            &&& name.skip(dot + 1) == e
            &&& !e.contains('.')
        },
    decreases name.len(),
{
    if name.len() > 0 {
        let front = name.drop_last();
        law_extension_stands_behind_last_dot(front);
        if name.last() == '.' {
            assert(name[name.len() - 1] == '.');
            assert(name.skip(name.len() as int) =~= Seq::empty());
        } else {
            if name.contains('.') {
                let k = name.index_of('.');
                assert(front[k] == '.');
            }
            if let Some(x) = extension_of(front) {
                let e = x.push(name.last());
                let dot = front.len() - x.len() - 1;
                assert(name[dot] == front[dot]);
                assert(name.skip(dot + 1) =~= e);
                if e.contains('.') {
                    let k = e.index_of('.');
                    assert(x[k] == '.');
                }
                assert(name.contains('.'));
            }
        }
    }
}

/// The extension of a file decides whether it is source code, and only without one
/// the type does.
pub proof fn law_extension_decides_before_type(name: Option<Seq<char>>, mime: Option<Seq<char>>)
    ensures
        name is Some && name->0.contains('.') ==> (routes_to_code(name, mime)
            <==> is_code_extension(extension_of(name->0)->0)),
        !(name is Some && name->0.contains('.')) ==> (routes_to_code(name, mime) <==> mime is Some
            && is_code_mime(mime->0)),
{
    if let Some(n) = name {
        law_extension_stands_behind_last_dot(n);
    }
}

/// A source with a preset of its own keeps its configuration; a prose source hands
/// source code to the code preset. Without a token counter a prose budget is four
/// times as large, and nothing else is scaled.
pub proof fn law_plans(
    r: ChunkerConfig,
    source_preset: Seq<char>,
    base: ChunkerConfig,
    filename: Option<Seq<char>>,
    mime: Option<Seq<char>>,
    counts_tokens: bool,
)
    requires
        is_plan(r, source_preset, base, filename, mime, counts_tokens),
        base.target() * 4 <= usize::MAX,
        base.overlap() * 4 <= usize::MAX,
    ensures
        source_preset == "prose"@ && routes_to_code(filename, mime) ==> r.preset@ == "code"@
            && r.target() == 3000 && r.overlap() == 0,
        !(source_preset == "prose"@ && routes_to_code(filename, mime)) && (counts_tokens
            || base.preset@ != "prose"@) ==> r == base,
        !(source_preset == "prose"@ && routes_to_code(filename, mime)) && !counts_tokens
            && base.preset@ == "prose"@ ==> r.preset == base.preset && r.target() == 4 * base.target()
            && r.overlap() == 4 * base.overlap() && r.window_turns == base.window_turns
            && r.stride_turns == base.stride_turns,
{
}

/// The name that an address hints at is its last segment, unless that is empty.
pub proof fn law_filename_hint(uri: Seq<char>, s: Seq<char>)
    ensures
        filename_hint(uri) == Some(s) <==> url_last_segment(uri) == Some(s) && s.len() > 0,
{
}

// ---------------------------------------------------------------------------
// Runs
// ---------------------------------------------------------------------------

/// A resource is skipped if and only if its address is indexed with its content and
/// under the policy of the run; otherwise it replaces what stands there.
pub proof fn law_what_is_skipped(s: RunView, resource: Resource, policy_version: Seq<char>)
    ensures
        step_for(s, resource, policy_version) is Skip <==> s.index.contains_key(resource.uri@)
            && s.index[resource.uri@].content_hash == resource.content_hash@
            && s.index[resource.uri@].policy_version == policy_version,
        step_for(s, resource, policy_version) matches StepView::Skip(event) ==> event
            == (ProgressView::DocumentFinished { uri: resource.uri@, outcome: DocOutcome::Skipped }),
        step_for(s, resource, policy_version) matches StepView::Index { replaces } ==> replaces == (
        if s.index.contains_key(resource.uri@) {
            Some(s.index[resource.uri@].resource_id)
        } else {
            None
        }),
{
}

/// A resource that was written is recorded under its address as what it is, and
/// nothing else in the index changes.
pub proof fn law_written_resources_are_recorded(
    s: RunView,
    resource: Resource,
    policy_version: Seq<char>,
    chunks: usize,
    other: Seq<char>,
)
    requires
        s.result.chunks_written + chunks <= u64::MAX,
        s.result.docs_indexed < u64::MAX,
    ensures
        ({
            let t = after_index(s, resource, policy_version, Ok(IndexOutcome::Written(chunks)));
            let record = t.index[resource.uri@];
            &&& t.index.contains_key(resource.uri@)
            &&& record.uri == resource.uri@ && record.resource_id == resource.id@
            &&& record.source_id == resource.source_id@
            &&& record.content_hash == resource.content_hash@
            &&& record.policy_version == policy_version
            &&& other != resource.uri@ ==> t.index.contains_key(other) == s.index.contains_key(other)
            &&& other != resource.uri@ && s.index.contains_key(other) ==> t.index[other]
                == s.index[other]
            &&& t.result.chunks_written == s.result.chunks_written + chunks
            &&& t.result.docs_indexed == s.result.docs_indexed + 1
            &&& t.seen == s.seen && t.gone == s.gone && t.known == s.known
        }),
{
}

/// Each document is announced by its address, its place in the run and the number
/// of documents that were announced.
pub proof fn law_documents_are_announced(s: RunView, uri: Seq<char>)
    ensures
        started_event(s, uri) == (ProgressView::DocumentStarted {
            uri,
            index: s.next_index,
            total: s.discovered_total,
        }),
        after_skip(s, uri, SkipReason::Unchanged).next_index == s.next_index + 1,
{
}

/// What is reported of a document is what became of it.
pub proof fn law_outcomes(reason: SkipReason, outcome: Result<IndexOutcome, Error>)
    ensures
        skip_outcome(reason) is Unsupported <==> reason is Unsupported,
        skip_outcome(reason) is Error <==> reason is Error,
        skip_outcome(reason) is Skipped <==> reason is Unchanged || reason is Other,
        index_outcome_of(outcome) is Error <==> outcome is Err,
        index_outcome_of(outcome) is Skipped <==> (outcome matches Ok(o) && o is Empty),
        outcome matches Ok(IndexOutcome::Written(n)) ==> index_outcome_of(outcome) == (
        DocOutcome::Indexed { chunks: n }),
{
}

/// A source is located at its root or its address.
pub proof fn law_locations(spec: SourceSpec)
    ensures
        spec matches SourceSpec::Path { root, .. } ==> location_of(spec) == root@,
        spec matches SourceSpec::Url { url, .. } ==> location_of(spec) == url@,
        spec matches SourceSpec::Feed { url, .. } ==> location_of(spec) == url@,
{
}

/// A document of a source is removed at the end of a pruning run if and only if the
/// origin confirmed it to be gone, or it was not seen in a run whose silence says
/// something; otherwise it stays as it is.
pub proof fn law_what_a_run_removes(
    s: RunView,
    source_id: Seq<char>,
    feed: bool,
    enumeration: Enumeration,
    uri: Seq<char>,
)
    requires
        s.index.contains_key(uri),
    ensures
        ({
            let end = final_index(s, source_id, feed, DeletionPolicy::Prune, enumeration);
            let silence_tells = !feed && enumeration is Complete && !(exists|v: Seq<char>|
                s.known.contains(v) && !s.gone.contains(v) && (forall|w: Seq<char>|
                    s.known.contains(w) && !s.gone.contains(w) ==> !s.seen.contains(w)));
            &&& end.contains_key(uri) <==> !(s.index[uri].source_id == source_id && (s.gone.contains(
                uri,
            ) || (silence_tells && !s.seen.contains(uri))))
            &&& end.contains_key(uri) ==> end[uri] == s.index[uri]
        }),
{
    let expected = s.known.difference(s.gone);
    let silent = exists|v: Seq<char>|
        s.known.contains(v) && !s.gone.contains(v) && (forall|w: Seq<char>|
            s.known.contains(w) && !s.gone.contains(w) ==> !s.seen.contains(w));
    if enumeration is Complete {
        if silent {
            let v = choose|v: Seq<char>|
                s.known.contains(v) && !s.gone.contains(v) && (forall|w: Seq<char>|
                    s.known.contains(w) && !s.gone.contains(w) ==> !s.seen.contains(w));
            assert(expected.contains(v));
            assert(expected.intersect(s.seen) =~= Set::empty());
            assert(suppression(s, enumeration) is Some);
        } else if suppression(s, enumeration) is Some {
            assert(expected != Set::<Seq<char>>::empty());
            assert(exists|u: Seq<char>| expected.contains(u)) by {
                if forall|u: Seq<char>| !expected.contains(u) {
                    assert(expected =~= Set::empty());
                }
            }
            let u = choose|u: Seq<char>| expected.contains(u);
            assert(s.known.contains(u) && !s.gone.contains(u));
            assert forall|w: Seq<char>|
                s.known.contains(w) && !s.gone.contains(w) implies !s.seen.contains(w) by {
                assert(!expected.intersect(s.seen).contains(w));
            }
            assert(silent);
        }
    }
}

/// What is said of an embedder that did not return one document for one says how
/// many it returned.
pub proof fn law_document_count_is_named(returned: int)
    ensures
        document_count_error(returned) matches ErrorView::Internal { message, .. }
            && contains_text(
            message,
            decimal(returned) + " EmbeddedDocuments for 1 input document"@,
        ),
{
    lemma_contains_rest(
        "embedder returned "@,
        decimal(returned),
        Seq::empty(),
        Seq::empty(),
        " EmbeddedDocuments for 1 input document"@,
    );
}

proof fn lemma_contains_rest(a: Seq<char>, b: Seq<char>, c: Seq<char>, d: Seq<char>, e: Seq<char>)
    ensures
        contains_text(a + b + e, b + e),
        contains_text(a + b + c + d + e, b + c + d + e),
{
    let short = a + b + e;
    let long = a + b + c + d + e;
    let n = a.len() as int;
    assert(short.subrange(n, n + (b + e).len()) =~= b + e);
    assert(occurs_at(short, b + e, n));
    assert(long.subrange(n, n + (b + c + d + e).len()) =~= b + c + d + e);
    assert(occurs_at(long, b + c + d + e, n));
}

/// What is said of an embedder that did not return one vector for each chunk says how
/// many it returned and how many chunks there were.
pub proof fn law_vector_count_is_named(returned: int, asked: int)
    ensures
        vector_count_error(returned, asked) matches ErrorView::Internal { message, .. }
            && contains_text(
            message,
            decimal(returned) + " vectors for "@ + decimal(asked) + " chunks"@,
        ),
{
    lemma_contains_rest(
        "embedder returned "@,
        decimal(returned),
        " vectors for "@,
        decimal(asked),
        " chunks"@,
    );
}

} // verus!
