//! The ingestion run of one source, as a state machine.
//!
//! An ingestor reports what it finds; the machine decides what is skipped, what
//! is indexed and, at the end, what may be removed. It performs no I/O: whoever
//! drives it indexes resources and deletes documents when told to, and hands
//! the outcome back.
//!
//! Removal rests on a distinction. A URI that the origin confirmed to be gone is
//! known to be gone. A URI that was merely not seen is presumed gone, and only
//! where its absence says something.

use vstd::prelude::*;
use vstd::string::*;

use crate::chunker::ChunkerConfig;
use crate::document_index::{lists, DocumentIndex, DocumentRecord, RecordView, UriSet};
use crate::error::Error;
use crate::ingestor::{Enumeration, SkipReason};
use crate::progress::{DocOutcome, IngestionResult, ProgressEvent, ProgressView};
use crate::text::{optional_text, texts};
use crate::types::{Resource, Source, SourceSpec};
use crate::uri::Uri;

verus! {

/// Configuration of one run.
#[derive(Debug)]
pub struct IngestionConfig {
    /// The store that is written to.
    pub store_id: String,
    /// The version of the indexing policy in effect.
    pub policy_version: String,
    /// How documents are cut.
    pub chunker: ChunkerConfig,
}

impl Clone for IngestionConfig {
    fn clone(&self) -> (r: IngestionConfig)
        ensures
            r == *self,
    {
        IngestionConfig {
            store_id: self.store_id.clone(),
            policy_version: self.policy_version.clone(),
            chunker: self.chunker.clone(),
        }
    }
}

/// Whether a run may remove documents. Removal is opt-in.
#[derive(Clone, Copy, Debug, PartialEq, Eq, Structural)]
pub enum DeletionPolicy {
    /// Remove nothing, and count what would have been removed.
    Retain,
    /// Remove what is gone.
    Prune,
}

impl Default for DeletionPolicy {
    fn default() -> (r: DeletionPolicy)
        ensures
            r == DeletionPolicy::Retain,
    {
        DeletionPolicy::Retain
    }
}

/// What indexing did with one resource.
#[derive(Clone, Copy, Debug, PartialEq, Eq, Structural)]
pub enum IndexOutcome {
    /// This many chunks were written.
    Written(usize),
    /// The resource gave no chunks. Nothing was written and nothing deleted.
    Empty,
}

/// What to do with a resource.
pub enum ResourceStep {
    /// Its content is indexed already.
    Skip(ProgressEvent),
    /// Index it, in place of the resource named.
    Index { replaces: Option<String> },
}

/// The mathematical value of a [`ResourceStep`].
#[verifier::ext_equal]
pub enum StepView {
    Skip(ProgressView),
    Index { replaces: Option<Seq<char>> },
}

impl View for ResourceStep {
    type V = StepView;

    open spec fn view(&self) -> StepView {
        match self {
            ResourceStep::Skip(event) => StepView::Skip(event@),
            ResourceStep::Index { replaces } => StepView::Index {
                replaces: optional_text(*replaces),
            },
        }
    }
}

/// Why a sweep did not run, and how many documents it left in place.
pub struct Suppression {
    pub reason: String,
    pub documents_preserved: usize,
}

/// The outcome of a sweep: the URIs to remove, or why there are none.
pub struct Sweep {
    pub uris: Vec<String>,
    pub suppressed: Option<Suppression>,
}

// ---------------------------------------------------------------------------
// The model
// ---------------------------------------------------------------------------

/// The state of a run.
#[verifier::ext_equal]
pub struct RunView {
    /// What is indexed.
    pub index: Map<Seq<char>, RecordView>,
    /// The counters.
    pub result: IngestionResult,
    /// The URIs that the source owned when the run began.
    pub known: Set<Seq<char>>,
    /// The URIs that were yielded or reported as skipped.
    pub seen: Set<Seq<char>>,
    /// The URIs that the origin confirmed to be gone.
    pub gone: Set<Seq<char>>,
    /// The last total that the ingestor announced.
    pub discovered_total: int,
    /// The number of documents started.
    pub next_index: int,
    /// The number of errors that the ingestor reported.
    pub skip_error_count: int,
}

/// The URIs of the index that belong to a source.
pub open spec fn owned(index: Map<Seq<char>, RecordView>, source_id: Seq<char>) -> Set<Seq<char>> {
    Set::new(|u: Seq<char>| index.contains_key(u) && index[u].source_id == source_id)
}

/// The URIs of a source that are known to be gone.
pub open spec fn confirmed_gone(s: RunView, source_id: Seq<char>) -> Set<Seq<char>> {
    owned(s.index, source_id).intersect(s.gone)
}

/// Why absence says nothing in this run: the enumeration was incomplete, or of
/// the documents that the source owned when the run began, and that are not
/// known to be gone, there are some and none was seen. What is new in this run
/// does not count: a source whose files were all renamed keeps its documents.
pub open spec fn suppression(s: RunView, enumeration: Enumeration) -> Option<Seq<char>> {
    match enumeration {
        Enumeration::Incomplete { reason } => Some(reason@),
        Enumeration::Complete => if unobserved(s.known.difference(s.gone), s.seen) {
            Some(observed_none())
        } else {
            None
        },
    }
}

/// Whether there are documents, and none of them was seen.
pub open spec fn unobserved(documents: Set<Seq<char>>, seen: Set<Seq<char>>) -> bool {
    &&& documents != Set::<Seq<char>>::empty()
    &&& documents.intersect(seen) == Set::<Seq<char>>::empty()
}

/// What is said where none of the documents of a source was seen.
pub open spec fn observed_none() -> Seq<char> {
    "this run observed none of the documents this source owns"@
}

/// What is reported of a sweep that did not run. A retaining run keeps what is
/// known to be gone, so it also reports that none of what the source owned was
/// seen where all of it is known to be gone.
pub open spec fn reported(
    s: RunView,
    deletion: DeletionPolicy,
    enumeration: Enumeration,
) -> Option<Seq<char>> {
    match suppression(s, enumeration) {
        Some(reason) => Some(reason),
        None => if deletion == DeletionPolicy::Retain && unobserved(s.known, s.seen) {
            Some(observed_none())
        } else {
            None
        },
    }
}

/// The URIs of a source that are presumed gone: neither seen nor already known
/// to be gone. Feeds list only their latest entries, so none of theirs is.
pub open spec fn presumed_gone(
    s: RunView,
    source_id: Seq<char>,
    feed: bool,
    enumeration: Enumeration,
) -> Set<Seq<char>> {
    if feed || suppression(s, enumeration) is Some {
        Set::empty()
    } else {
        owned(s.index, source_id).difference(s.seen).difference(s.gone)
    }
}

/// Whether one more document can be counted.
pub open spec fn has_room(s: RunView) -> bool {
    &&& s.result.docs_seen < u64::MAX
    &&& s.result.docs_skipped < u64::MAX
    &&& s.result.unsupported_format_count < u64::MAX
    &&& s.result.error_count < u64::MAX
    &&& s.result.docs_indexed < u64::MAX
    &&& s.next_index < usize::MAX
    &&& s.skip_error_count < usize::MAX
}

/// The state after a document was started.
pub open spec fn started(s: RunView, uri: Seq<char>) -> RunView {
    RunView {
        seen: s.seen.insert(uri),
        result: IngestionResult { docs_seen: (s.result.docs_seen + 1) as u64, ..s.result },
        next_index: s.next_index + 1,
        ..s
    }
}

/// The event that reports the start of a document.
pub open spec fn started_event(s: RunView, uri: Seq<char>) -> ProgressView {
    ProgressView::DocumentStarted { uri, index: s.next_index, total: s.discovered_total }
}

/// Whether a resource is indexed already, with this content and policy.
pub open spec fn unchanged(
    s: RunView,
    uri: Seq<char>,
    content_hash: Seq<char>,
    policy_version: Seq<char>,
) -> bool {
    &&& s.index.contains_key(uri)
    &&& s.index[uri].content_hash == content_hash
    &&& s.index[uri].policy_version == policy_version
}

/// The state after a document was counted as skipped.
pub open spec fn counted_skipped(s: RunView) -> RunView {
    RunView {
        result: IngestionResult { docs_skipped: (s.result.docs_skipped + 1) as u64, ..s.result },
        ..s
    }
}

/// The state after a resource was yielded.
pub open spec fn after_begin(
    s: RunView,
    resource: Resource,
    policy_version: Seq<char>,
) -> RunView {
    let t = started(s, resource.uri@);
    if unchanged(s, resource.uri@, resource.content_hash@, policy_version) {
        counted_skipped(t)
    } else {
        t
    }
}

/// What to do with a resource that was yielded: nothing where it is indexed
/// already, and otherwise index it in place of what stands under its URI.
pub open spec fn step_for(s: RunView, resource: Resource, policy_version: Seq<char>) -> StepView {
    let uri = resource.uri@;
    if unchanged(s, uri, resource.content_hash@, policy_version) {
        StepView::Skip(ProgressView::DocumentFinished { uri, outcome: DocOutcome::Skipped })
    } else {
        StepView::Index {
            replaces: if s.index.contains_key(uri) {
                Some(s.index[uri].resource_id)
            } else {
                None
            },
        }
    }
}

/// The state after a document was counted as failed.
pub open spec fn counted_error(s: RunView) -> RunView {
    RunView {
        result: IngestionResult { error_count: (s.result.error_count + 1) as u64, ..s.result },
        ..s
    }
}

/// The state after the ingestor reported `uri` as skipped.
pub open spec fn after_skip(s: RunView, uri: Seq<char>, reason: SkipReason) -> RunView {
    let t = started(s, uri);
    match reason {
        SkipReason::Unchanged | SkipReason::Other(_) => counted_skipped(t),
        SkipReason::Unsupported => RunView {
            result: IngestionResult {
                unsupported_format_count: (t.result.unsupported_format_count + 1) as u64,
                ..t.result
            },
            ..t
        },
        SkipReason::Error(_) => RunView {
            skip_error_count: t.skip_error_count + 1,
            ..counted_error(t)
        },
    }
}

/// What became of a document that the ingestor reported as skipped.
pub open spec fn skip_outcome(reason: SkipReason) -> DocOutcome {
    match reason {
        SkipReason::Unchanged | SkipReason::Other(_) => DocOutcome::Skipped,
        SkipReason::Unsupported => DocOutcome::Unsupported,
        SkipReason::Error(_) => DocOutcome::Error,
    }
}

/// The record of a resource that was written.
pub open spec fn record_of(resource: Resource, policy_version: Seq<char>) -> RecordView {
    RecordView {
        uri: resource.uri@,
        resource_id: resource.id@,
        source_id: resource.source_id@,
        content_hash: resource.content_hash@,
        policy_version,
    }
}

/// The state after indexing `resource` ended with `outcome`. Only what was
/// written enters the index.
pub open spec fn after_index(
    s: RunView,
    resource: Resource,
    policy_version: Seq<char>,
    outcome: Result<IndexOutcome, Error>,
) -> RunView {
    match outcome {
        Ok(IndexOutcome::Empty) => counted_skipped(s),
        Ok(IndexOutcome::Written(chunks)) => RunView {
            index: s.index.insert(resource.uri@, record_of(resource, policy_version)),
            result: IngestionResult {
                docs_indexed: (s.result.docs_indexed + 1) as u64,
                chunks_written: (s.result.chunks_written + chunks) as u64,
                ..s.result
            },
            ..s
        },
        Err(_) => counted_error(s),
    }
}

/// What became of a document whose indexing ended with `outcome`.
pub open spec fn index_outcome_of(outcome: Result<IndexOutcome, Error>) -> DocOutcome {
    match outcome {
        Ok(IndexOutcome::Empty) => DocOutcome::Skipped,
        Ok(IndexOutcome::Written(chunks)) => DocOutcome::Indexed { chunks },
        Err(_) => DocOutcome::Error,
    }
}

/// The state with `n` more documents counted as prunable.
pub open spec fn counted_prunable(s: RunView, n: int) -> RunView {
    RunView {
        result: IngestionResult {
            docs_prunable: (s.result.docs_prunable + n) as u64,
            ..s.result
        },
        ..s
    }
}

/// Where a source is: its root, or its address.
pub open spec fn location_of(spec: SourceSpec) -> Seq<char> {
    match spec {
        SourceSpec::Path { root, .. } => root@,
        SourceSpec::Url { url, .. } => url@,
        SourceSpec::Feed { url, .. } => url@,
    }
}

/// The location of a source, for a human reader.
pub fn source_location(source: &Source) -> (r: String)
    ensures
        r@ == location_of(source.spec),
{
    match &source.spec {
        SourceSpec::Path { root, .. } => root.clone(),
        SourceSpec::Url { url, .. } => url.clone(),
        SourceSpec::Feed { url, .. } => url.clone(),
    }
}

// ---------------------------------------------------------------------------
// The machine
// ---------------------------------------------------------------------------

/// The run of one source.
pub struct PipelineCallback<'a> {
    source: &'a Source,
    config: &'a IngestionConfig,
    doc_index: DocumentIndex,
    result: IngestionResult,
    known: UriSet,
    seen: UriSet,
    gone: UriSet,
    discovered_total: usize,
    next_index: usize,
    skip_error_count: usize,
}

impl<'a> View for PipelineCallback<'a> {
    type V = RunView;

    closed spec fn view(&self) -> RunView {
        RunView {
            index: self.doc_index@,
            result: self.result,
            known: self.known@,
            seen: self.seen@,
            gone: self.gone@,
            discovered_total: self.discovered_total as int,
            next_index: self.next_index as int,
            skip_error_count: self.skip_error_count as int,
        }
    }
}

impl<'a> PipelineCallback<'a> {
    /// The source of the run.
    pub closed spec fn of_source(self) -> Source {
        *self.source
    }

    /// The configuration of the run.
    pub closed spec fn of_config(self) -> IngestionConfig {
        *self.config
    }

    /// The index and the sets are valid.
    pub closed spec fn wf(self) -> bool {
        &&& self.doc_index.wf()
        &&& self.known.wf()
        &&& self.seen.wf()
        &&& self.gone.wf()
    }

    /// `self` is a later state of the run `earlier`.
    pub open spec fn continues(self, earlier: PipelineCallback<'a>) -> bool {
        &&& self.wf()
        &&& self.of_source() == earlier.of_source()
        &&& self.of_config() == earlier.of_config()
    }

    /// Starts a run over what is indexed already.
    pub fn new(
        source: &'a Source,
        doc_index: DocumentIndex,
        config: &'a IngestionConfig,
    ) -> (r: (PipelineCallback<'a>, ProgressEvent))
        requires
            doc_index.wf(),
        ensures
            r.0.wf(),
            r.0.of_source() == *source,
            r.0.of_config() == *config,
            r.0@ == (RunView {
                index: doc_index@,
                result: IngestionResult::zero(),
                known: owned(doc_index@, source.id@),
                seen: Set::empty(),
                gone: Set::empty(),
                discovered_total: 0,
                next_index: 0,
                skip_error_count: 0,
            }),
            r.1@ == (ProgressView::SourceStarted {
                source_id: source.id@,
                location: location_of(source.spec),
            }),
    {
        let event = ProgressEvent::SourceStarted {
            source_id: source.id.clone(),
            location: source_location(source),
        };
        let mut callback = PipelineCallback {
            source,
            config,
            doc_index,
            result: IngestionResult::default(),
            known: UriSet::new(),
            seen: UriSet::new(),
            gone: UriSet::new(),
            discovered_total: 0,
            next_index: 0,
            skip_error_count: 0,
        };
        callback.known = callback.owned_set();
        (callback, event)
    }

    /// Whether one more document can be counted.
    pub fn has_room(&self) -> (r: bool)
        ensures
            r == has_room(self@),
    {
        self.result.docs_seen < u64::MAX && self.result.docs_skipped < u64::MAX
            && self.result.unsupported_format_count < u64::MAX && self.result.error_count
            < u64::MAX && self.result.docs_indexed < u64::MAX && self.next_index < usize::MAX
            && self.skip_error_count < usize::MAX
    }

    /// The counters so far.
    pub fn result(&self) -> (r: IngestionResult)
        ensures
            r == self@.result,
    {
        self.result
    }

    /// The number of errors that the ingestor reported.
    pub fn skip_error_count(&self) -> (r: usize)
        ensures
            r == self@.skip_error_count,
    {
        self.skip_error_count
    }

    /// The ingestor announces the number of documents it found.
    pub fn on_discovered(&mut self, total: usize) -> (r: ProgressEvent)
        requires
            old(self).wf(),
        ensures
            final(self).continues(*old(self)),
            final(self)@ == (RunView { discovered_total: total as int, ..old(self)@ }),
            r@ == (ProgressView::Discovered { total: total as int }),
    {
        self.discovered_total = total;
        ProgressEvent::Discovered { total }
    }

    /// Starts a document: it was seen, and is counted.
    fn start_document(&mut self, uri: &str) -> (r: ProgressEvent)
        requires
            old(self).wf(),
            has_room(old(self)@),
        ensures
            final(self).continues(*old(self)),
            final(self)@ == started(old(self)@, uri@),
            r@ == started_event(old(self)@, uri@),
    {
        self.seen.insert(uri);
        self.result.docs_seen = self.result.docs_seen + 1;
        let index: usize = self.next_index;
        self.next_index = index + 1;
        ProgressEvent::DocumentStarted {
            uri: uri.to_owned(),
            index,
            total: self.discovered_total,
        }
    }

    /// The ingestor yields a resource. It is skipped where its content and
    /// policy are those indexed already; otherwise it is to be indexed, in
    /// place of what stands under its URI.
    pub fn begin_resource(&mut self, resource: &Resource) -> (r: (ProgressEvent, ResourceStep))
        requires
            old(self).wf(),
            has_room(old(self)@),
        ensures
            final(self).continues(*old(self)),
            r.0@ == started_event(old(self)@, resource.uri@),
            final(self)@ == after_begin(
                old(self)@,
                *resource,
                old(self).of_config().policy_version@,
            ),
            r.1@ == step_for(old(self)@, *resource, old(self).of_config().policy_version@),
    {
        let uri = resource.uri.as_str();
        let begun = self.start_document(uri);
        let replaces = match self.doc_index.get(uri) {
            Some(existing) => {
                if existing.content_hash == resource.content_hash && existing.policy_version
                    == self.config.policy_version {
                    self.result.docs_skipped = self.result.docs_skipped + 1;
                    let done = ProgressEvent::DocumentFinished {
                        uri: uri.to_owned(),
                        outcome: DocOutcome::Skipped,
                    };
                    return (begun, ResourceStep::Skip(done));
                }
                Some(existing.resource_id.clone())
            },
            None => None,
        };
        (begun, ResourceStep::Index { replaces })
    }

    /// Indexing a resource ended. What was written enters the index; a resource
    /// that gave no chunks, or failed, leaves the index as it was.
    pub fn finish_resource(
        &mut self,
        resource: &Resource,
        outcome: &Result<IndexOutcome, Error>,
    ) -> (r: ProgressEvent)
        requires
            old(self).wf(),
            old(self)@.result.docs_skipped < u64::MAX,
            old(self)@.result.docs_indexed < u64::MAX,
            old(self)@.result.error_count < u64::MAX,
            *outcome matches Ok(IndexOutcome::Written(chunks)) ==> old(self)@.result.chunks_written
                + chunks <= u64::MAX,
        ensures
            final(self).continues(*old(self)),
            final(self)@ == after_index(
                old(self)@,
                *resource,
                old(self).of_config().policy_version@,
                *outcome,
            ),
            r@ == (ProgressView::DocumentFinished {
                uri: resource.uri@,
                outcome: index_outcome_of(*outcome),
            }),
    {
        let uri = resource.uri.as_str().to_owned();
        match outcome {
            Ok(IndexOutcome::Empty) => {
                self.result.docs_skipped = self.result.docs_skipped + 1;
                ProgressEvent::DocumentFinished { uri, outcome: DocOutcome::Skipped }
            },
            Ok(IndexOutcome::Written(chunks)) => {
                let chunks: usize = *chunks;
                self.result.docs_indexed = self.result.docs_indexed + 1;
                self.result.chunks_written = self.result.chunks_written + chunks as u64;
                self.doc_index.upsert(
                    DocumentRecord {
                        uri: uri.clone(),
                        resource_id: resource.id.clone(),
                        source_id: resource.source_id.clone(),
                        content_hash: resource.content_hash.clone(),
                        policy_version: self.config.policy_version.clone(),
                    },
                );
                ProgressEvent::DocumentFinished { uri, outcome: DocOutcome::Indexed { chunks } }
            },
            Err(_) => {
                self.result.error_count = self.result.error_count + 1;
                ProgressEvent::DocumentFinished { uri, outcome: DocOutcome::Error }
            },
        }
    }

    /// The origin confirmed that `uri` is gone.
    pub fn on_gone(&mut self, uri: &Uri)
        requires
            old(self).wf(),
        ensures
            final(self).continues(*old(self)),
            final(self)@ == (RunView { gone: old(self)@.gone.insert(uri@), ..old(self)@ }),
    {
        self.gone.insert(uri.as_str());
    }

    /// The ingestor yields nothing for `uri`, which still exists.
    pub fn on_skipped(&mut self, uri: &Uri, reason: &SkipReason) -> (r: (
        ProgressEvent,
        ProgressEvent,
    ))
        requires
            old(self).wf(),
            has_room(old(self)@),
        ensures
            final(self).continues(*old(self)),
            final(self)@ == after_skip(old(self)@, uri@, *reason),
            r.0@ == started_event(old(self)@, uri@),
            r.1@ == (ProgressView::DocumentFinished { uri: uri@, outcome: skip_outcome(*reason) }),
    {
        let begun = self.start_document(uri.as_str());
        let outcome = match reason {
            SkipReason::Unchanged => {
                self.result.docs_skipped = self.result.docs_skipped + 1;
                DocOutcome::Skipped
            },
            SkipReason::Unsupported => {
                self.result.unsupported_format_count = self.result.unsupported_format_count + 1;
                DocOutcome::Unsupported
            },
            SkipReason::Other(_) => {
                self.result.docs_skipped = self.result.docs_skipped + 1;
                DocOutcome::Skipped
            },
            SkipReason::Error(_) => {
                self.result.error_count = self.result.error_count + 1;
                self.skip_error_count = self.skip_error_count + 1;
                DocOutcome::Error
            },
        };
        let done = ProgressEvent::DocumentFinished { uri: uri.as_str().to_owned(), outcome };
        (begun, done)
    }

    /// The URIs of the index that this source owns.
    fn owned_uris(&self) -> (r: Vec<String>)
        requires
            self.wf(),
        ensures
            lists(texts(r@), owned(self@.index, self.of_source().id@)),
    {
        let all = self.doc_index.uris();
        let ghost index = self@.index;
        let ghost id = self.of_source().id@;
        let mut out: Vec<String> = Vec::new();
        let n: usize = all.len();
        let mut i: usize = 0;
        while i < n
            invariant
                0 <= i <= n,
                n == all@.len(),
                self.wf(),
                index == self@.index,
                id == self.of_source().id@,
                lists(texts(all@), index.dom()),
                texts(out@) == kept(texts(all@).take(i as int), owned(index, id)),
            decreases n - i,
        {
            let uri = all[i].as_str();
            let ghost here = texts(all@).take(i as int);
            proof {
                assert(texts(all@)[i as int] == uri@);
                assert(texts(all@).contains(uri@));
                assert(index.dom().contains(uri@));
                lemma_kept_push(here, uri@, owned(index, id));
                assert(texts(all@).take(i + 1) =~= here.push(uri@));
            }
            if let Some(record) = self.doc_index.get(uri) {
                if record.source_id == self.source.id {
                    push_uri(&mut out, uri);
                }
            }
            i += 1;
        }
        proof {
            assert(texts(all@).take(n as int) =~= texts(all@));
            lemma_kept_lists(texts(all@), index.dom(), owned(index, id));
            assert(index.dom().intersect(owned(index, id)) =~= owned(index, id));
        }
        out
    }

    /// The set of the URIs of the index that this source owns.
    fn owned_set(&self) -> (r: UriSet)
        requires
            self.wf(),
        ensures
            r.wf(),
            r@ == owned(self@.index, self.of_source().id@),
    {
        let mine = self.owned_uris();
        let ghost own = owned(self@.index, self.of_source().id@);
        let mut out = UriSet::new();
        let n: usize = mine.len();
        let mut i: usize = 0;
        while i < n
            invariant
                0 <= i <= n,
                n == mine@.len(),
                lists(texts(mine@), own),
                out.wf(),
                forall|u: Seq<char>| #[trigger]
                    out@.contains(u) <==> texts(mine@).take(i as int).contains(u),
            decreases n - i,
        {
            let uri = mine[i].as_str();
            let ghost here = texts(mine@).take(i as int);
            out.insert(uri);
            proof {
                let next = texts(mine@).take(i + 1);
                assert(next =~= here.push(uri@));
                assert forall|u: Seq<char>| #[trigger] out@.contains(u) <==> next.contains(u) by {
                    if here.contains(u) {
                        let k = here.index_of(u);
                        assert(next[k] == u);
                    }
                    if u == uri@ {
                        assert(next[i as int] == u);
                    }
                    if next.contains(u) && u != uri@ {
                        let k = next.index_of(u);
                        assert(here[k] == u);
                    }
                }
            }
            i += 1;
        }
        proof {
            assert(texts(mine@).take(n as int) =~= texts(mine@));
            assert(out@ =~= own);
        }
        out
    }

    /// Whether the source owned documents when the run began, those known to be
    /// gone among them or not, and none of them was seen.
    fn observed_none(&self, gone_too: bool) -> (r: bool)
        requires
            self.wf(),
        ensures
            r == unobserved(
                if gone_too {
                    self@.known
                } else {
                    self@.known.difference(self@.gone)
                },
                self@.seen,
            ),
    {
        let list = self.known.list();
        let ghost expected = if gone_too {
            self@.known
        } else {
            self@.known.difference(self@.gone)
        };
        let mut any_expected: bool = false;
        let n: usize = list.len();
        let mut i: usize = 0;
        while i < n
            invariant
                0 <= i <= n,
                n == list@.len(),
                lists(texts(list@), self@.known),
                expected == if gone_too {
                    self@.known
                } else {
                    self@.known.difference(self@.gone)
                },
                any_expected == exists|k: int|
                    0 <= k < i && expected.contains(#[trigger] texts(list@)[k]),
                forall|k: int|
                    0 <= k < i ==> !(expected.contains(#[trigger] texts(list@)[k])
                        && self@.seen.contains(texts(list@)[k])),
            decreases n - i,
        {
            let uri = list[i].as_str();
            proof {
                assert(texts(list@)[i as int] == uri@);
                assert(texts(list@).contains(uri@));
            }
            if gone_too || !self.gone.contains(uri) {
                any_expected = true;
                if self.seen.contains(uri) {
                    proof {
                        assert(expected.intersect(self@.seen).contains(uri@));
                    }
                    return false;
                }
            }
            i += 1;
        }
        proof {
            assert forall|u: Seq<char>| expected.contains(u) implies exists|k: int|
                0 <= k < n && #[trigger] texts(list@)[k] == u by {
                let k = texts(list@).index_of(u);
                assert(texts(list@)[k] == u);
            }
            assert(expected.intersect(self@.seen) =~= Set::empty());
            if any_expected {
                let k = choose|k: int|
                    0 <= k < n && expected.contains(#[trigger] texts(list@)[k]);
                assert(expected.contains(texts(list@)[k]));
            } else {
                assert(expected =~= Set::empty());
            }
        }
        any_expected
    }

    /// The number of documents that this source owns.
    pub fn owned_count(&self) -> (r: usize)
        requires
            self.wf(),
        ensures
            r == owned(self@.index, self.of_source().id@).len(),
            owned(self@.index, self.of_source().id@).finite(),
    {
        let mine = self.owned_uris();
        proof {
            lemma_lists_len(texts(mine@), owned(self@.index, self.of_source().id@));
        }
        mine.len()
    }

    /// The URIs of this source that are known to be gone, to be removed one by
    /// one. A retaining run counts them instead.
    pub fn confirmed_removals(&mut self, deletion: DeletionPolicy) -> (r: Vec<String>)
        requires
            old(self).wf(),
            old(self)@.result.docs_prunable + confirmed_gone(
                old(self)@,
                old(self).of_source().id@,
            ).len() <= u64::MAX,
        ensures
            final(self).continues(*old(self)),
            deletion == DeletionPolicy::Prune ==> final(self)@ == old(self)@ && lists(
                texts(r@),
                confirmed_gone(old(self)@, old(self).of_source().id@),
            ),
            deletion == DeletionPolicy::Retain ==> final(self)@ == counted_prunable(
                old(self)@,
                confirmed_gone(old(self)@, old(self).of_source().id@).len() as int,
            ) && r@ == Seq::<String>::empty(),
    {
        let mine = self.owned_uris();
        let ghost own = owned(self@.index, self.of_source().id@);
        let mut out: Vec<String> = Vec::new();
        let n: usize = mine.len();
        let mut i: usize = 0;
        while i < n
            invariant
                0 <= i <= n,
                n == mine@.len(),
                self.wf(),
                *self == *old(self),
                texts(out@) == kept(texts(mine@).take(i as int), self@.gone),
            decreases n - i,
        {
            let uri = mine[i].as_str();
            let ghost here = texts(mine@).take(i as int);
            proof {
                assert(texts(mine@)[i as int] == uri@);
                lemma_kept_push(here, uri@, self@.gone);
                assert(texts(mine@).take(i + 1) =~= here.push(uri@));
            }
            if self.gone.contains(uri) {
                push_uri(&mut out, uri);
            }
            i += 1;
        }
        let ghost target = confirmed_gone(self@, self.of_source().id@);
        proof {
            assert(texts(mine@).take(n as int) =~= texts(mine@));
            lemma_kept_lists(texts(mine@), own, self@.gone);
            assert(own.intersect(self@.gone) =~= target);
            lemma_lists_len(texts(out@), target);
        }
        if let DeletionPolicy::Retain = deletion {
            self.result.docs_prunable = self.result.docs_prunable + out.len() as u64;
            return Vec::new();
        }
        out
    }

    /// The URIs of this source that are presumed gone, to be removed one by one,
    /// or why absence says nothing in this run. A retaining run counts them
    /// instead.
    pub fn presumed_removals(
        &mut self,
        deletion: DeletionPolicy,
        enumeration: &Enumeration,
    ) -> (r: Sweep)
        requires
            old(self).wf(),
            old(self)@.result.docs_prunable + presumed_gone(
                old(self)@,
                old(self).of_source().id@,
                old(self).of_source().spec is Feed,
                *enumeration,
            ).len() <= u64::MAX,
        ensures
            final(self).continues(*old(self)),
            deletion == DeletionPolicy::Prune ==> final(self)@ == old(self)@ && lists(
                texts(r.uris@),
                presumed_gone(
                    old(self)@,
                    old(self).of_source().id@,
                    old(self).of_source().spec is Feed,
                    *enumeration,
                ),
            ),
            deletion == DeletionPolicy::Retain ==> final(self)@ == counted_prunable(
                old(self)@,
                presumed_gone(
                    old(self)@,
                    old(self).of_source().id@,
                    old(self).of_source().spec is Feed,
                    *enumeration,
                ).len() as int,
            ) && r.uris@ == Seq::<String>::empty(),
            r.suppressed is Some == (!(old(self).of_source().spec is Feed) && reported(
                old(self)@,
                deletion,
                *enumeration,
            ) is Some),
            r.suppressed matches Some(why) ==> reported(
                old(self)@,
                deletion,
                *enumeration,
            ) == Some(why.reason@) && why.documents_preserved == owned(
                old(self)@.index,
                old(self).of_source().id@,
            ).len(),
    {
        proof {
            let nothing = texts(Seq::<String>::empty());
            assert(nothing =~= Seq::empty());
        }
        if let SourceSpec::Feed { .. } = &self.source.spec {
            let none: Vec<String> = Vec::new();
            proof {
                assert(none@ =~= Seq::empty());
            }
            return Sweep { uris: none, suppressed: None };
        }
        let mine = self.owned_uris();
        let ghost own = owned(self@.index, self.of_source().id@);
        let n: usize = mine.len();
        let mut out: Vec<String> = Vec::new();
        let mut i: usize = 0;
        while i < n
            invariant
                0 <= i <= n,
                n == mine@.len(),
                self.wf(),
                *self == *old(self),
                texts(out@) == kept(texts(mine@).take(i as int), unaccounted(self@)),
            decreases n - i,
        {
            let uri = mine[i].as_str();
            let ghost here = texts(mine@).take(i as int);
            proof {
                assert(texts(mine@)[i as int] == uri@);
                lemma_kept_push(here, uri@, unaccounted(self@));
                assert(texts(mine@).take(i + 1) =~= here.push(uri@));
            }
            if !self.seen.contains(uri) && !self.gone.contains(uri) {
                push_uri(&mut out, uri);
            }
            i += 1;
        }
        proof {
            lemma_lists_len(texts(mine@), own);
            assert(texts(mine@).take(n as int) =~= texts(mine@));
            lemma_kept_lists(texts(mine@), own, unaccounted(self@));
            assert(own.intersect(unaccounted(self@)) =~= own.difference(self@.seen).difference(
                self@.gone,
            ));
            lemma_lists_len(texts(out@), own.intersect(unaccounted(self@)));
        }
        let reason: Option<String> = match enumeration {
            Enumeration::Incomplete { reason } => Some(reason.clone()),
            Enumeration::Complete => if self.observed_none(false) {
                Some("this run observed none of the documents this source owns".to_owned())
            } else {
                None
            },
        };
        if let Some(reason) = reason {
            let none: Vec<String> = Vec::new();
            proof {
                assert(none@ =~= Seq::empty());
            }
            return Sweep {
                uris: none,
                suppressed: Some(Suppression { reason, documents_preserved: n }),
            };
        }
        if let DeletionPolicy::Retain = deletion {
            self.result.docs_prunable = self.result.docs_prunable + out.len() as u64;
            let none: Vec<String> = Vec::new();
            proof {
                assert(none@ =~= Seq::empty());
            }
            let suppressed = if self.observed_none(true) {
                let reason = "this run observed none of the documents this source owns".to_owned();
                Some(Suppression { reason, documents_preserved: n })
            } else {
                None
            };
            return Sweep { uris: none, suppressed };
        }
        Sweep { uris: out, suppressed: None }
    }

    /// Takes `uri` out of the index: the id of the resource to delete from the
    /// store, where it was there.
    pub fn remove_document(&mut self, uri: &str) -> (r: Option<String>)
        requires
            old(self).wf(),
        ensures
            final(self).continues(*old(self)),
            final(self)@ == (RunView { index: old(self)@.index.remove(uri@), ..old(self)@ }),
            r is Some == old(self)@.index.contains_key(uri@),
            r matches Some(id) ==> id@ == old(self)@.index[uri@].resource_id,
    {
        match self.doc_index.remove(uri) {
            Some(record) => Some(record.resource_id),
            None => None,
        }
    }

    /// The store deleted `rows` rows of a removed document.
    pub fn note_deleted(&mut self, rows: u64)
        requires
            old(self).wf(),
            old(self)@.result.docs_deleted < u64::MAX,
        ensures
            final(self).continues(*old(self)),
            rows == 0 ==> final(self)@ == old(self)@,
            rows > 0 ==> final(self)@ == (RunView {
                result: IngestionResult {
                    docs_deleted: (old(self)@.result.docs_deleted + 1) as u64,
                    ..old(self)@.result
                },
                ..old(self)@
            }),
    {
        if rows > 0 {
            self.result.docs_deleted = self.result.docs_deleted + 1;
        }
    }

    /// Ends the run: the index as it is now, the counters, and the last event.
    pub fn finish(self) -> (r: (DocumentIndex, IngestionResult, ProgressEvent))
        requires
            self.wf(),
        ensures
            r.0.wf(),
            r.0@ == self@.index,
            r.1 == self@.result,
            r.2@ == (ProgressView::SourceFinished { result: self@.result }),
    {
        let result = self.result;
        (self.doc_index, result, ProgressEvent::SourceFinished { result })
    }
}

/// The URIs that were neither seen nor confirmed to be gone.
spec fn unaccounted(s: RunView) -> Set<Seq<char>> {
    Set::new(|u: Seq<char>| !s.seen.contains(u) && !s.gone.contains(u))
}

fn push_uri(out: &mut Vec<String>, uri: &str)
    ensures
        texts(final(out)@) == texts(old(out)@).push(uri@),
{
    out.push(uri.to_owned());
    proof {
        assert(texts(out@) =~= texts(old(out)@).push(uri@));
    }
}

/// The members of `list` that `keep` holds, in order.
spec fn kept(list: Seq<Seq<char>>, keep: Set<Seq<char>>) -> Seq<Seq<char>>
    decreases list.len(),
{
    if list.len() == 0 {
        Seq::empty()
    } else if keep.contains(list.last()) {
        kept(list.drop_last(), keep).push(list.last())
    } else {
        kept(list.drop_last(), keep)
    }
}

proof fn lemma_kept_push(s: Seq<Seq<char>>, x: Seq<char>, keep: Set<Seq<char>>)
    ensures
        kept(s.push(x), keep) == (if keep.contains(x) {
            kept(s, keep).push(x)
        } else {
            kept(s, keep)
        }),
{
    assert(s.push(x).drop_last() =~= s);
}

/// Filtering a list of a set by another set lists the intersection.
proof fn lemma_kept_lists(list: Seq<Seq<char>>, all: Set<Seq<char>>, keep: Set<Seq<char>>)
    requires
        lists(list, all),
    ensures
        lists(kept(list, keep), all.intersect(keep)),
{
    lemma_kept_members(list, keep);
}

proof fn lemma_kept_members(list: Seq<Seq<char>>, keep: Set<Seq<char>>)
    requires
        list.no_duplicates(),
    ensures
        kept(list, keep).no_duplicates(),
        forall|u: Seq<char>| #[trigger]
            kept(list, keep).contains(u) <==> list.contains(u) && keep.contains(u),
    decreases list.len(),
{
    let rest = kept(list, keep);
    if list.len() > 0 {
        let front = list.drop_last();
        lemma_kept_members(front, keep);
        let before = kept(front, keep);
        assert forall|u: Seq<char>| #[trigger]
            rest.contains(u) <==> list.contains(u) && keep.contains(u) by {
            if list.contains(u) && keep.contains(u) {
                let i = list.index_of(u);
                if i < front.len() {
                    assert(front[i] == u);
                    assert(before.contains(u));
                    let k = before.index_of(u);
                    assert(rest[k] == u);
                } else {
                    assert(rest[before.len() as int] == u);
                }
            }
            if rest.contains(u) {
                let k = rest.index_of(u);
                if k < before.len() {
                    assert(before[k] == u);
                    assert(before.contains(u));
                    let i = front.index_of(u);
                    assert(list[i] == u);
                } else {
                    assert(list[list.len() - 1] == u);
                }
            }
        }
        assert forall|a: int, b: int| 0 <= a < b < rest.len() implies rest[a] != rest[b] by {
            if b < before.len() {
                assert(before[a] != before[b]);
            } else {
                assert(before.contains(before[a]));
                let i = front.index_of(before[a]);
                assert(list[i] == rest[a]);
            }
        }
    }
}

/// A list of a set is as long as the set is large.
proof fn lemma_lists_len(list: Seq<Seq<char>>, all: Set<Seq<char>>)
    requires
        lists(list, all),
    ensures
        list.len() == all.len(),
        all.finite(),
{
    list.unique_seq_to_set();
    assert(list.to_set() =~= all);
    vstd::seq_lib::seq_to_set_is_finite(list);
}

} // verus!
