//! Hybrid search: pooling the results of several stores, fusing the two legs and
//! shaping citations.
//!
//! Each leg's results are pooled over all stores into one ranking, and the two
//! rankings are fused once. An entry is identified by its store and its chunk:
//! stores that hold the same content hold chunks of the same id.
//!
//! Scores are held as the bits of 64-bit floats.

use vstd::prelude::*;
use vstd::string::*;

use crate::citation::{
    ChunkPosition, Citation, CitationBlock, CitationLocation, CitationProvenance, CitationStore,
    Score,
};
use crate::embedder::{DocumentChunks, EmbeddedDocument};
use crate::metadata::bibliographic;
use crate::ranking::{
    float_greater, float_order, is_number, law_ranked, rank, ranked, ranks_before, RankKey, Ranked,
};
use crate::text::{optional_text, same_text, stands_before, texts};
use crate::types::ChunkRecord;

verus! {

/// Smoothing parameter of reciprocal rank fusion: the entry at rank `r` of a leg,
/// from 0, contributes `1 / (RRF_K + r + 1)` to its fused score.
pub const RRF_K: u32 = 60;

/// Default number of results per leg.
pub const DEFAULT_LEG_K: usize = 50;

/// Default number of results to return.
pub const DEFAULT_TOP_N: usize = 10;

/// Largest number of results a client may ask for.
pub const SEARCH_MAX_LIMIT: usize = 100;

/// `limit`, or [`SEARCH_MAX_LIMIT`] where it is larger.
pub fn clamp_search_limit(limit: usize) -> (r: usize)
    ensures
        r == (if limit <= SEARCH_MAX_LIMIT {
            limit
        } else {
            SEARCH_MAX_LIMIT
        }),
{
    if limit <= SEARCH_MAX_LIMIT {
        limit
    } else {
        SEARCH_MAX_LIMIT
    }
}

/// A store that is searched.
#[derive(Clone, Debug, PartialEq, Eq)]
pub struct StoreHandle {
    pub id: String,
    pub name: String,
}

/// A restriction on the documents that are searched.
#[derive(Clone, Debug, PartialEq, Eq)]
pub enum MetadataFilter {
    /// Documents of this MIME type.
    Mime(String),
    /// Documents acquired after this time.
    FetchedAfter(String),
    /// Documents acquired before this time.
    FetchedBefore(String),
}

/// What is searched for.
#[derive(Clone, Debug, PartialEq, Eq)]
pub struct QueryRequest {
    pub query: String,
    /// Number of results per leg.
    pub leg_k: Option<usize>,
    /// Number of results to return.
    pub top_n: Option<usize>,
    pub filters: Vec<MetadataFilter>,
}

impl QueryRequest {
    /// The number of results per leg and of results to return, with defaults
    /// filled in.
    pub fn limits(&self) -> (r: (usize, usize))
        ensures
            r.0 == (match self.leg_k {
                Some(k) => k,
                None => DEFAULT_LEG_K,
            }),
            r.1 == (match self.top_n {
                Some(n) => n,
                None => DEFAULT_TOP_N,
            }),
    {
        let leg_k: usize = match self.leg_k {
            Some(k) => k,
            None => DEFAULT_LEG_K,
        };
        let top_n: usize = match self.top_n {
            Some(n) => n,
            None => DEFAULT_TOP_N,
        };
        (leg_k, top_n)
    }
}

/// What was found.
#[derive(Clone, Debug, PartialEq, Eq)]
pub struct QueryResponse {
    /// The best citations, best first.
    pub citations: Vec<Citation>,
    /// Number of candidates before the best were taken.
    pub total_candidates: usize,
}

/// One result of one leg.
#[derive(Clone, Debug, PartialEq, Eq)]
pub struct SearchResult {
    pub chunk: ChunkRecord,
    /// The bits of the score as a 64-bit float.
    pub score: u64,
}

/// Identity of an entry in fusion: its store and its chunk.
#[verifier::ext_equal]
pub struct FusionKey {
    pub store_id: Seq<char>,
    pub chunk_id: Seq<char>,
}

/// The identity of a chunk in fusion.
pub open spec fn fusion_key(chunk: ChunkRecord) -> FusionKey {
    FusionKey { store_id: chunk.store_id@, chunk_id: chunk.id@ }
}

/// Whether two chunks are the same entry.
fn same_entry(a: &ChunkRecord, b: &ChunkRecord) -> (r: bool)
    ensures
        r == (fusion_key(*a) == fusion_key(*b)),
{
    same_text(a.store_id.as_str(), b.store_id.as_str()) && same_text(a.id.as_str(), b.id.as_str())
}

/// What `chunk` of score `score` is ranked by.
pub open spec fn chunk_rank(chunk: ChunkRecord, score: u64) -> RankKey {
    RankKey { score: float_order(score), store_id: chunk.store_id@, chunk_id: chunk.id@ }
}

fn chunk_outranks(a: &ChunkRecord, a_score: u64, b: &ChunkRecord, b_score: u64) -> (r: bool)
    ensures
        r == ranks_before(chunk_rank(*a, a_score), chunk_rank(*b, b_score)),
{
    if float_greater(a_score, b_score) {
        true
    } else if float_greater(b_score, a_score) {
        false
    } else if same_text(a.store_id.as_str(), b.store_id.as_str()) {
        proof {
            if crate::text::text_before(a.store_id@, b.store_id@) {
                crate::text::lemma_text_before_asymmetric(a.store_id@, b.store_id@);
            }
        }
        stands_before(a.id.as_str(), b.id.as_str())
    } else {
        stands_before(a.store_id.as_str(), b.store_id.as_str())
    }
}

impl Ranked for SearchResult {
    open spec fn rank_key(&self) -> RankKey {
        chunk_rank(self.chunk, self.score)
    }

    fn outranks(&self, other: &SearchResult) -> (r: bool) {
        chunk_outranks(&self.chunk, self.score, &other.chunk, other.score)
    }
}

// ---------------------------------------------------------------------------
// Pooling
// ---------------------------------------------------------------------------

/// The results that carry the id of the store they came from, in order.
pub open spec fn own_results(results: Seq<SearchResult>, store_id: Seq<char>) -> Seq<SearchResult>
    decreases results.len(),
{
    if results.len() == 0 {
        Seq::empty()
    } else if results.last().chunk.store_id@ == store_id {
        own_results(results.drop_last(), store_id).push(results.last())
    } else {
        own_results(results.drop_last(), store_id)
    }
}

/// Drops every result that does not carry the id of the store it came from.
pub fn retain_own_chunks(results: Vec<SearchResult>, handle: &StoreHandle) -> (r: Vec<
    SearchResult,
>)
    ensures
        r@ == own_results(results@, handle.id@),
{
    let mut out: Vec<SearchResult> = Vec::new();
    let ghost all = results@;
    for result in it: results
        invariant
            it.seq() == all,
            out@ == own_results(all.take(it.index() as int), handle.id@),
    {
        proof {
            let i = it.index();
            assert(all.take(i + 1).drop_last() =~= all.take(i));
            assert(all.take(i + 1).last() == result);
        }
        if same_text(result.chunk.store_id.as_str(), handle.id.as_str()) {
            out.push(result);
        }
    }
    proof {
        assert(all.take(all.len() as int) =~= all);
    }
    out
}

/// The own results of every store, one store after another.
pub open spec fn pool(stores: Seq<StoreHandle>, legs: Seq<Vec<SearchResult>>) -> Seq<SearchResult>
    decreases legs.len(),
{
    if legs.len() == 0 {
        Seq::empty()
    } else {
        pool(stores.drop_last(), legs.drop_last()) + own_results(legs.last()@, stores.last().id@)
    }
}

/// Ranks one leg's results over all stores: by score, then by store, then by
/// chunk.
pub fn pool_leg_results(results: Vec<SearchResult>) -> (r: Vec<SearchResult>)
    requires
        forall|i: int| 0 <= i < results@.len() ==> is_number((#[trigger] results@[i]).score),
    ensures
        r@ == ranked(results@),
{
    rank(results)
}

/// One leg of a query over several stores: the own results of each, ranked
/// together. `legs` holds what each store returned.
pub fn pool_stores(stores: &[StoreHandle], legs: Vec<Vec<SearchResult>>) -> (r: Vec<SearchResult>)
    requires
        stores@.len() == legs@.len(),
        forall|i: int, j: int|
            0 <= i < legs@.len() && 0 <= j < legs@[i]@.len() ==> is_number(
                (#[trigger] legs@[i]@[j]).score,
            ),
    ensures
        r@ == ranked(pool(stores@, legs@)),
{
    let mut out: Vec<SearchResult> = Vec::new();
    let ghost all = legs@;
    let mut at: usize = 0;
    for leg in it: legs
        invariant
            it.seq() == all,
            stores@.len() == all.len(),
            at == it.index(),
            out@ == pool(stores@.take(it.index() as int), all.take(it.index() as int)),
    {
        let ghost i = it.index();
        proof {
            assert(all.take(i + 1).drop_last() =~= all.take(i));
            assert(all.take(i + 1).last() == leg);
            assert(stores@.take(i + 1).drop_last() =~= stores@.take(i));
            assert(stores@.take(i + 1).last() == stores@[i]);
        }
        let mut own = retain_own_chunks(leg, &stores[at]);
        out.append(&mut own);
        at += 1;
    }
    proof {
        assert(all.take(all.len() as int) =~= all);
        assert(stores@.take(stores@.len() as int) =~= stores@);
    }
    rank(out)
}

// ---------------------------------------------------------------------------
// Fusion
// ---------------------------------------------------------------------------

/// The positions at which the entry `key` stands in a ranking.
pub open spec fn ranks_of(results: Seq<SearchResult>, key: FusionKey) -> Seq<usize>
    decreases results.len(),
{
    if results.len() == 0 {
        Seq::empty()
    } else if fusion_key(results.last().chunk) == key {
        ranks_of(results.drop_last(), key).push((results.len() - 1) as usize)
    } else {
        ranks_of(results.drop_last(), key)
    }
}

/// The score of the last result of the entry `key`, where there is one.
pub open spec fn leg_score(results: Seq<SearchResult>, key: FusionKey) -> Option<u64>
    decreases results.len(),
{
    if results.len() == 0 {
        None
    } else if fusion_key(results.last().chunk) == key {
        Some(results.last().score)
    } else {
        leg_score(results.drop_last(), key)
    }
}

/// The chunk of the first result of the entry `key`.
pub open spec fn first_chunk(results: Seq<SearchResult>, key: FusionKey) -> Option<ChunkRecord>
    decreases results.len(),
{
    if results.len() == 0 {
        None
    } else {
        match first_chunk(results.drop_last(), key) {
            Some(chunk) => Some(chunk),
            None => if fusion_key(results.last().chunk) == key {
                Some(results.last().chunk)
            } else {
                None
            },
        }
    }
}

/// An entry before its score is computed: where it stands in either ranking.
#[derive(Debug)]
pub struct Candidate {
    pub chunk: ChunkRecord,
    pub dense_ranks: Vec<usize>,
    pub bm25_ranks: Vec<usize>,
    pub dense_score: Option<u64>,
    pub bm25_score: Option<u64>,
}

/// Whether `c` holds what two rankings say of its entry.
pub open spec fn describes(
    c: Candidate,
    dense: Seq<SearchResult>,
    bm25: Seq<SearchResult>,
) -> bool {
    let key = fusion_key(c.chunk);
    &&& first_chunk(dense + bm25, key) == Some(c.chunk)
    &&& c.dense_ranks@ == ranks_of(dense, key)
    &&& c.bm25_ranks@ == ranks_of(bm25, key)
    &&& c.dense_score == leg_score(dense, key)
    &&& c.bm25_score == leg_score(bm25, key)
}

/// Whether no two candidates are the same entry.
pub open spec fn distinct_entries(candidates: Seq<Candidate>) -> bool {
    forall|i: int, j: int|
        0 <= i < j < candidates.len() ==> fusion_key((#[trigger] candidates[i]).chunk)
            != fusion_key((#[trigger] candidates[j]).chunk)
}

/// Whether `key` is an entry of `candidates`.
pub open spec fn has_entry(candidates: Seq<Candidate>, key: FusionKey) -> bool {
    exists|i: int| 0 <= i < candidates.len() && fusion_key((#[trigger] candidates[i]).chunk) == key
}

/// Whether `candidates` are the entries of two rankings: each entry once, with
/// what the rankings say of it, and no other.
pub open spec fn fuses(
    candidates: Seq<Candidate>,
    dense: Seq<SearchResult>,
    bm25: Seq<SearchResult>,
) -> bool {
    &&& distinct_entries(candidates)
    &&& forall|i: int| 0 <= i < candidates.len() ==> describes(#[trigger] candidates[i], dense, bm25)
    &&& forall|i: int|
        0 <= i < (dense + bm25).len() ==> has_entry(
            candidates,
            fusion_key((#[trigger] (dense + bm25)[i]).chunk),
        )
}

/// A leg of a query.
#[derive(Clone, Copy, Debug, PartialEq, Eq, Structural)]
enum Leg {
    Dense,
    Bm25,
}

/// Adds the next result of a leg, which stands at position `rank`.
fn add_result(
    candidates: &mut Vec<Candidate>,
    result: SearchResult,
    rank: usize,
    leg: Leg,
    Ghost(dense): Ghost<Seq<SearchResult>>,
    Ghost(bm25): Ghost<Seq<SearchResult>>,
)
    requires
        fuses(old(candidates)@, dense, bm25),
        leg == Leg::Dense ==> rank == dense.len() && bm25.len() == 0,
        leg == Leg::Bm25 ==> rank == bm25.len(),
    ensures
        leg == Leg::Dense ==> fuses(final(candidates)@, dense.push(result), bm25),
        leg == Leg::Bm25 ==> fuses(final(candidates)@, dense, bm25.push(result)),
{
    let ghost key = fusion_key(result.chunk);
    let ghost dense2 = if leg == Leg::Dense { dense.push(result) } else { dense };
    let ghost bm252 = if leg == Leg::Bm25 { bm25.push(result) } else { bm25 };
    let ghost all = dense + bm25;
    let ghost before = candidates@;
    proof {
        assert(dense2 + bm252 =~= all.push(result));
        assert(all.push(result).drop_last() =~= all);
        assert(dense.push(result).drop_last() =~= dense);
        assert(bm25.push(result).drop_last() =~= bm25);
        assert forall|k: FusionKey| k != key implies #[trigger] ranks_of(dense2, k) == ranks_of(
            dense,
            k,
        ) && ranks_of(bm252, k) == ranks_of(bm25, k) && leg_score(dense2, k) == leg_score(dense, k)
            && leg_score(bm252, k) == leg_score(bm25, k) by {}
        assert forall|k: FusionKey| k != key implies #[trigger] first_chunk(all.push(result), k)
            == first_chunk(all, k) by {}
    }
    let n: usize = candidates.len();
    let mut i: usize = 0;
    while i < n && !same_entry(&candidates[i].chunk, &result.chunk)
        invariant
            0 <= i <= n,
            n == candidates@.len(),
            candidates@ == before,
            forall|k: int|
                0 <= k < i ==> fusion_key((#[trigger] candidates@[k]).chunk) != fusion_key(
                    result.chunk,
                ),
        decreases n - i,
    {
        i += 1;
    }
    let score: u64 = result.score;
    if i < n {
        let mut c = candidates.remove(i);
        match leg {
            Leg::Dense => {
                c.dense_ranks.push(rank);
                c.dense_score = Some(score);
            },
            Leg::Bm25 => {
                c.bm25_ranks.push(rank);
                c.bm25_score = Some(score);
            },
        }
        candidates.insert(i, c);
        proof {
            assert(describes(before[i as int], dense, bm25));
            assert(candidates@ =~= before.update(i as int, c));
            assert(describes(c, dense2, bm252));
            assert forall|k: int| 0 <= k < candidates@.len() implies describes(
                #[trigger] candidates@[k],
                dense2,
                bm252,
            ) by {
                if k != i {
                    assert(describes(before[k], dense, bm25));
                    assert(fusion_key(before[k].chunk) != key);
                }
            }
            assert forall|j: int| 0 <= j < (dense2 + bm252).len() implies has_entry(
                candidates@,
                fusion_key((#[trigger] (dense2 + bm252)[j]).chunk),
            ) by {
                let kj = fusion_key((dense2 + bm252)[j].chunk);
                if j < all.len() {
                    assert(has_entry(before, fusion_key(all[j].chunk)));
                    let m = choose|m: int|
                        0 <= m < before.len() && fusion_key((#[trigger] before[m]).chunk) == kj;
                    assert(fusion_key(candidates@[m].chunk) == kj);
                } else {
                    assert(fusion_key(candidates@[i as int].chunk) == kj);
                }
            }
        }
    } else {
        proof {
            lemma_absent(all, dense, bm25, before, key);
        }
        let mut dense_ranks: Vec<usize> = Vec::new();
        let mut bm25_ranks: Vec<usize> = Vec::new();
        let (dense_score, bm25_score) = match leg {
            Leg::Dense => {
                dense_ranks.push(rank);
                (Some(score), None)
            },
            Leg::Bm25 => {
                bm25_ranks.push(rank);
                (None, Some(score))
            },
        };
        let c = Candidate {
            chunk: result.chunk,
            dense_ranks,
            bm25_ranks,
            dense_score,
            bm25_score,
        };
        candidates.push(c);
        proof {
            assert(c.dense_ranks@ =~= ranks_of(dense2, key));
            assert(c.bm25_ranks@ =~= ranks_of(bm252, key));
            assert(describes(c, dense2, bm252));
            assert forall|k: int| 0 <= k < candidates@.len() implies describes(
                #[trigger] candidates@[k],
                dense2,
                bm252,
            ) by {
                if k < before.len() {
                    assert(candidates@[k] == before[k]);
                    assert(describes(before[k], dense, bm25));
                }
            }
            assert forall|j: int| 0 <= j < (dense2 + bm252).len() implies has_entry(
                candidates@,
                fusion_key((#[trigger] (dense2 + bm252)[j]).chunk),
            ) by {
                let kj = fusion_key((dense2 + bm252)[j].chunk);
                if j < all.len() {
                    assert(has_entry(before, fusion_key(all[j].chunk)));
                    let m = choose|m: int|
                        0 <= m < before.len() && fusion_key((#[trigger] before[m]).chunk) == kj;
                    assert(fusion_key(candidates@[m].chunk) == kj);
                } else {
                    assert(fusion_key(candidates@[before.len() as int].chunk) == kj);
                }
            }
        }
    }
}

/// An entry that no candidate stands for does not occur in the rankings.
proof fn lemma_absent(
    all: Seq<SearchResult>,
    dense: Seq<SearchResult>,
    bm25: Seq<SearchResult>,
    candidates: Seq<Candidate>,
    key: FusionKey,
)
    requires
        all == dense + bm25,
        fuses(candidates, dense, bm25),
        !has_entry(candidates, key),
    ensures
        first_chunk(all, key) is None,
        ranks_of(dense, key) == Seq::<usize>::empty(),
        ranks_of(bm25, key) == Seq::<usize>::empty(),
        leg_score(dense, key) is None,
        leg_score(bm25, key) is None,
{
    assert forall|i: int| 0 <= i < all.len() implies fusion_key((#[trigger] all[i]).chunk)
        != key by {
        assert(has_entry(candidates, fusion_key((dense + bm25)[i].chunk)));
    }
    assert forall|i: int| 0 <= i < dense.len() implies fusion_key((#[trigger] dense[i]).chunk)
        != key by {
        assert(all[i] == dense[i]);
    }
    assert forall|i: int| 0 <= i < bm25.len() implies fusion_key((#[trigger] bm25[i]).chunk)
        != key by {
        assert(all[dense.len() + i] == bm25[i]);
    }
    lemma_absent_from(all, key);
    lemma_absent_from(dense, key);
    lemma_absent_from(bm25, key);
}

proof fn lemma_absent_from(results: Seq<SearchResult>, key: FusionKey)
    requires
        forall|i: int| 0 <= i < results.len() ==> fusion_key((#[trigger] results[i]).chunk) != key,
    ensures
        first_chunk(results, key) is None,
        ranks_of(results, key) == Seq::<usize>::empty(),
        leg_score(results, key) is None,
    decreases results.len(),
{
    if results.len() > 0 {
        let front = results.drop_last();
        assert forall|i: int| 0 <= i < front.len() implies fusion_key((#[trigger] front[i]).chunk)
            != key by {
            assert(results[i] == front[i]);
        }
        assert(fusion_key(results[results.len() - 1].chunk) != key);
        lemma_absent_from(front, key);
    }
}

/// Adds every result of a leg, in the order of their ranks.
fn add_leg(
    candidates: &mut Vec<Candidate>,
    results: Vec<SearchResult>,
    leg: Leg,
    Ghost(dense): Ghost<Seq<SearchResult>>,
)
    requires
        leg == Leg::Dense ==> old(candidates)@.len() == 0,
        leg == Leg::Bm25 ==> fuses(old(candidates)@, dense, Seq::empty()),
    ensures
        leg == Leg::Dense ==> fuses(final(candidates)@, results@, Seq::empty()),
        leg == Leg::Bm25 ==> fuses(final(candidates)@, dense, results@),
{
    let ghost all = results@;
    let ghost none = Seq::<SearchResult>::empty();
    let n: usize = results.len();
    let mut rank: usize = 0;
    proof {
        assert(all.take(0) =~= none);
        assert(none + none =~= none);
    }
    for result in it: results
        invariant
            it.seq() == all,
            rank == it.index(),
            rank <= all.len(),
            n == all.len(),
            none.len() == 0,
            leg == Leg::Dense ==> fuses(candidates@, all.take(rank as int), none),
            leg == Leg::Bm25 ==> fuses(candidates@, dense, all.take(rank as int)),
    {
        proof {
            assert(all.take(rank as int).push(result) =~= all.take(rank + 1));
        }
        let ghost d = if leg == Leg::Dense { all.take(rank as int) } else { dense };
        let ghost b = if leg == Leg::Bm25 { all.take(rank as int) } else { none };
        add_result(candidates, result, rank, leg, Ghost(d), Ghost(b));
        rank += 1;
    }
    proof {
        assert(all.take(all.len() as int) =~= all);
    }
}

/// The entries of two rankings, each with its positions in them.
pub fn group_legs(dense_results: Vec<SearchResult>, bm25_results: Vec<SearchResult>) -> (r: Vec<
    Candidate,
>)
    ensures
        fuses(r@, dense_results@, bm25_results@),
{
    let ghost dense = dense_results@;
    let mut candidates: Vec<Candidate> = Vec::new();
    add_leg(&mut candidates, dense_results, Leg::Dense, Ghost(Seq::empty()));
    add_leg(&mut candidates, bm25_results, Leg::Bm25, Ghost(dense));
    candidates
}

/// An entry with its fused score.
#[derive(Clone, Debug, PartialEq, Eq)]
pub struct FusedChunkEntry {
    pub chunk: ChunkRecord,
    pub fused_score: u64,
    pub dense_score: Option<u64>,
    pub bm25_score: Option<u64>,
}

impl Ranked for FusedChunkEntry {
    open spec fn rank_key(&self) -> RankKey {
        chunk_rank(self.chunk, self.fused_score)
    }

    fn outranks(&self, other: &FusedChunkEntry) -> (r: bool) {
        chunk_outranks(&self.chunk, self.fused_score, &other.chunk, other.fused_score)
    }
}

/// The candidate `c` with the fused score `score`.
pub open spec fn scored(c: Candidate, score: u64) -> FusedChunkEntry {
    FusedChunkEntry {
        chunk: c.chunk,
        fused_score: score,
        dense_score: c.dense_score,
        bm25_score: c.bm25_score,
    }
}

/// The candidates with their fused scores.
pub open spec fn all_scored(candidates: Seq<Candidate>, scores: Seq<u64>) -> Seq<FusedChunkEntry> {
    Seq::new(candidates.len(), |i: int| scored(candidates[i], scores[i]))
}

/// Ranks the candidates by their fused scores, ties by store, then by chunk.
pub fn rank_fused(candidates: Vec<Candidate>, scores: &[u64]) -> (r: Vec<FusedChunkEntry>)
    requires
        candidates@.len() == scores@.len(),
        forall|i: int| 0 <= i < scores@.len() ==> is_number(#[trigger] scores@[i]),
    ensures
        r@ == ranked(all_scored(candidates@, scores@)),
{
    let ghost all = candidates@;
    let mut out: Vec<FusedChunkEntry> = Vec::new();
    let mut at: usize = 0;
    for c in it: candidates
        invariant
            it.seq() == all,
            at == it.index(),
            all.len() == scores@.len(),
            out@ =~= all_scored(all, scores@).take(at as int),
    {
        out.push(
            FusedChunkEntry {
                chunk: c.chunk,
                fused_score: scores[at],
                dense_score: c.dense_score,
                bm25_score: c.bm25_score,
            },
        );
        at += 1;
    }
    proof {
        assert(out@ =~= all_scored(all, scores@));
    }
    rank(out)
}

/// The rerank stage: for now it changes nothing.
pub fn rerank_noop(results: Vec<FusedChunkEntry>) -> (r: Vec<FusedChunkEntry>)
    ensures
        r == results,
{
    results
}

// ---------------------------------------------------------------------------
// Citations
// ---------------------------------------------------------------------------

/// Whether `c` cites the entry `e` of the store `id` named `name`.
pub open spec fn cites(c: Citation, e: FusedChunkEntry, id: Seq<char>, name: Seq<char>) -> bool {
    &&& c.chunk_id == e.chunk.id
    &&& c.resource_id == e.chunk.resource_id
    &&& c.store.id@ == id
    &&& c.store.name@ == name
    &&& c.uri == e.chunk.uri
    &&& optional_text(c.title) == bibliographic(e.chunk.metadata@).title
    &&& c.heading_path == e.chunk.heading_path
    &&& c.block == (CitationBlock {
        seq: e.chunk.block_seq,
        kind: e.chunk.block_kind,
        page: e.chunk.page,
    })
    &&& c.chunk_position.seq_in_block == e.chunk.seq_in_block
    &&& c.location == (CitationLocation {
        span: e.chunk.span,
        window_block_seqs: e.chunk.window_block_seqs,
    })
    &&& c.snippet == e.chunk.text
    &&& c.score == (Score {
        fused: e.fused_score,
        dense: e.dense_score,
        bm25: e.bm25_score,
    })
    &&& c.provenance == (CitationProvenance {
        fetched_at: e.chunk.fetched_at,
        content_hash: e.chunk.content_hash,
    })
    &&& c.metadata == e.chunk.metadata
}

/// Shapes a fused entry into a citation.
pub fn shape_citation(fused: FusedChunkEntry, store_id: String, store_name: String) -> (r: Citation)
    ensures
        cites(r, fused, store_id@, store_name@),
        r.store == (CitationStore { id: store_id, name: store_name }),
{
    let chunk = fused.chunk;
    let title: Option<String> = match chunk.metadata.title() {
        Some(t) => Some(t.to_owned()),
        None => None,
    };
    Citation {
        chunk_id: chunk.id,
        resource_id: chunk.resource_id,
        store: CitationStore { id: store_id, name: store_name },
        uri: chunk.uri,
        title,
        heading_path: chunk.heading_path,
        block: CitationBlock { seq: chunk.block_seq, kind: chunk.block_kind, page: chunk.page },
        chunk_position: ChunkPosition { seq_in_block: chunk.seq_in_block },
        location: CitationLocation {
            span: chunk.span,
            window_block_seqs: chunk.window_block_seqs,
        },
        snippet: chunk.text,
        score: Score {
            fused: fused.fused_score,
            dense: fused.dense_score,
            bm25: fused.bm25_score,
        },
        provenance: CitationProvenance {
            fetched_at: chunk.fetched_at,
            content_hash: chunk.content_hash,
        },
        metadata: chunk.metadata,
    }
}

/// The name of the store `id`: that of the last handle with this id, or empty.
pub open spec fn store_name(stores: Seq<StoreHandle>, id: Seq<char>) -> Seq<char>
    decreases stores.len(),
{
    if stores.len() == 0 {
        Seq::empty()
    } else if stores.last().id@ == id {
        stores.last().name@
    } else {
        store_name(stores.drop_last(), id)
    }
}

fn find_store_name(stores: &[StoreHandle], id: &str) -> (r: String)
    ensures
        r@ == store_name(stores@, id@),
{
    let mut i: usize = stores.len();
    proof {
        assert(stores@.take(i as int) =~= stores@);
    }
    while i > 0
        invariant
            0 <= i <= stores@.len(),
            store_name(stores@, id@) == store_name(stores@.take(i as int), id@),
        decreases i,
    {
        proof {
            assert(stores@.take(i as int).last() == stores@[i - 1]);
            assert(stores@.take(i as int).drop_last() =~= stores@.take(i - 1));
        }
        if same_text(stores[i - 1].id.as_str(), id) {
            return stores[i - 1].name.clone();
        }
        i -= 1;
    }
    String::new()
}

/// The smaller of two lengths.
pub open spec fn shorter(a: nat, b: nat) -> nat {
    if a <= b {
        a
    } else {
        b
    }
}

/// The response to a query: the best `top_n` of the ranked entries as citations,
/// each attributed to the store that its chunk carries.
pub fn shape_response(
    stores: &[StoreHandle],
    entries: Vec<FusedChunkEntry>,
    top_n: usize,
) -> (r: QueryResponse)
    ensures
        r.total_candidates == entries@.len(),
        r.citations@.len() == shorter(entries@.len(), top_n as nat),
        forall|i: int|
            0 <= i < r.citations@.len() ==> cites(
                #[trigger] r.citations@[i],
                entries@[i],
                entries@[i].chunk.store_id@,
                store_name(stores@, entries@[i].chunk.store_id@),
            ),
{
    let ghost all = entries@;
    let total_candidates: usize = entries.len();
    let mut citations: Vec<Citation> = Vec::new();
    for entry in it: entries
        invariant
            it.seq() == all,
            citations@.len() == shorter(it.index() as nat, top_n as nat),
            forall|i: int|
                0 <= i < citations@.len() ==> cites(
                    #[trigger] citations@[i],
                    all[i],
                    all[i].chunk.store_id@,
                    store_name(stores@, all[i].chunk.store_id@),
                ),
    {
        if citations.len() < top_n {
            let store_id = entry.chunk.store_id.clone();
            let name = find_store_name(stores, store_id.as_str());
            citations.push(shape_citation(entry, store_id, name));
        }
    }
    QueryResponse { citations, total_candidates }
}

/// The query orchestrator.
pub struct SearchOrchestrator;

impl SearchOrchestrator {
    /// What is embedded for a query: a document of one chunk, the query itself.
    pub fn embed_query(query: &str) -> (r: DocumentChunks)
        ensures
            r.document_context@ == query@,
            texts(r.chunks@) == seq![query@],
    {
        let mut chunks: Vec<String> = Vec::new();
        chunks.push(query.to_owned());
        proof {
            assert(texts(chunks@) =~= seq![query@]);
        }
        DocumentChunks { document_context: query.to_owned(), chunks }
    }

    /// The vector of a query: the first vector of the first document that the
    /// embedder returned, or none at all.
    pub fn query_vector(embedded: Vec<EmbeddedDocument>) -> (r: Vec<u32>)
        ensures
            embedded@.len() > 0 && embedded@[0]@.len() > 0 ==> r@
                == embedded@[0]@[0]@,
            !(embedded@.len() > 0 && embedded@[0]@.len() > 0) ==> r@.len() == 0,
    {
        let mut documents = embedded;
        if documents.len() == 0 {
            return Vec::new();
        }
        let mut first = documents.swap_remove(0);
        if first.len() == 0 {
            return Vec::new();
        }
        first.swap_remove(0)
    }

    /// The candidates of a query over several stores: the two legs, each ranked
    /// over all stores, fused once. `dense` and `bm25` hold what each store
    /// returned.
    pub fn candidates(
        stores: &[StoreHandle],
        dense: Vec<Vec<SearchResult>>,
        bm25: Vec<Vec<SearchResult>>,
    ) -> (r: Vec<Candidate>)
        requires
            stores@.len() == dense@.len(),
            stores@.len() == bm25@.len(),
            forall|i: int, j: int|
                0 <= i < dense@.len() && 0 <= j < dense@[i]@.len() ==> is_number(
                    (#[trigger] dense@[i]@[j]).score,
                ),
            forall|i: int, j: int|
                0 <= i < bm25@.len() && 0 <= j < bm25@[i]@.len() ==> is_number(
                    (#[trigger] bm25@[i]@[j]).score,
                ),
        ensures
            fuses(r@, ranked(pool(stores@, dense@)), ranked(pool(stores@, bm25@))),
    {
        let pooled_dense = pool_stores(stores, dense);
        let pooled_bm25 = pool_stores(stores, bm25);
        group_legs(pooled_dense, pooled_bm25)
    }

    /// The response to a query whose candidates were scored: ranked, reranked
    /// and cut to `top_n`.
    pub fn query(
        stores: &[StoreHandle],
        candidates: Vec<Candidate>,
        scores: &[u64],
        top_n: usize,
    ) -> (r: QueryResponse)
        requires
            candidates@.len() == scores@.len(),
            forall|i: int| 0 <= i < scores@.len() ==> is_number(#[trigger] scores@[i]),
        ensures
            r.total_candidates == candidates@.len(),
            r.citations@.len() == shorter(candidates@.len(), top_n as nat),
            forall|i: int|
                0 <= i < r.citations@.len() ==> ({
                    let e = ranked(all_scored(candidates@, scores@))[i];
                    cites(
                        #[trigger] r.citations@[i],
                        e,
                        e.chunk.store_id@,
                        store_name(stores@, e.chunk.store_id@),
                    )
                }),
    {
        proof {
            law_ranked(all_scored(candidates@, scores@));
        }
        let fused = rank_fused(candidates, scores);
        let reranked = rerank_noop(fused);
        shape_response(stores, reranked, top_n)
    }
}

} // verus!
