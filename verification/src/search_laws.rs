//! What holds of every search.

use vstd::prelude::*;
use vstd::multiset::*;

use crate::citation::Citation;
use crate::metadata::Metadata;
use crate::ranking::{
    float_order, in_order, law_rank_order_is_total, law_ranked, ranked, ranks_before, Ranked,
};
use crate::search::{
    all_scored, cites, first_chunk, fuses, fusion_key, has_entry, leg_score, own_results, pool,
    ranks_of, shorter, store_name, Candidate, FusedChunkEntry, FusionKey, SearchResult, StoreHandle,
};
use crate::text::{optional_text, text_before};
use crate::types::ChunkRecord;

verus! {

/// Whether no two entries have the same rank.
pub open spec fn distinct_ranks<T: Ranked>(s: Seq<T>) -> bool {
    forall|i: int, j: int|
        0 <= i < j < s.len() ==> (#[trigger] s[i]).rank_key() != (#[trigger] s[j]).rank_key()
}

proof fn lemma_distinct_ranks_of_permutation<T: Ranked>(a: Seq<T>, b: Seq<T>)
    requires
        a.to_multiset() == b.to_multiset(),
        distinct_ranks(a),
    ensures
        distinct_ranks(b),
    decreases a.len(),
{
    broadcast use group_multiset_axioms;

    if b.len() > 0 {
        b.to_multiset_ensures();
        a.to_multiset_ensures();
        let x = b.last();
        assert(b.contains(x));
        assert(b.to_multiset().count(x) > 0);
        assert(a.contains(x));
        let i = a.index_of(x);
        let a2 = a.remove(i);
        let b2 = b.remove(b.len() - 1);
        assert(b2 =~= b.drop_last());
        vstd::seq_lib::to_multiset_remove(a, i);
        vstd::seq_lib::to_multiset_remove(b, b.len() - 1);
        assert forall|p: int, q: int| 0 <= p < q < a2.len() implies (#[trigger] a2[p]).rank_key()
            != (#[trigger] a2[q]).rank_key() by {
            let p1 = if p < i { p } else { p + 1 };
            let q1 = if q < i { q } else { q + 1 };
            assert(a2[p] == a[p1] && a2[q] == a[q1]);
        }
        lemma_distinct_ranks_of_permutation(a2, b2);
        assert forall|p: int, q: int| 0 <= p < q < b.len() implies (#[trigger] b[p]).rank_key()
            != (#[trigger] b[q]).rank_key() by {
            if q < b.len() - 1 {
                assert(b2[p] == b[p] && b2[q] == b[q]);
            } else {
                b2.to_multiset_ensures();
                a2.to_multiset_ensures();
                assert(b2[p] == b[p]);
                assert(b2.contains(b[p]));
                assert(b2.to_multiset().count(b[p]) > 0);
                assert(a2.contains(b[p]));
                let m = a2.index_of(b[p]);
                let m1 = if m < i { m } else { m + 1 };
                assert(a[m1] == b[p]);
                assert(a[i] == b[q]);
                if m1 < i {
                    assert(a[m1].rank_key() != a[i].rank_key());
                } else {
                    assert(a[i].rank_key() != a[m1].rank_key());
                }
            }
        }
    }
}

proof fn lemma_orderings_agree<T: Ranked>(r: Seq<T>, q: Seq<T>)
    requires
        in_order(r),
        in_order(q),
        distinct_ranks(r),
        r.to_multiset() == q.to_multiset(),
    ensures
        r == q,
    decreases r.len(),
{
    broadcast use group_multiset_axioms;

    r.to_multiset_ensures();
    q.to_multiset_ensures();
    if r.len() > 0 {
        assert(r.contains(r[0]));
        assert(r.to_multiset().count(r[0]) > 0);
        assert(q.contains(r[0]));
        assert(q.contains(q[0]));
        assert(q.to_multiset().count(q[0]) > 0);
        assert(r.contains(q[0]));
        let j = q.index_of(r[0]);
        let i = r.index_of(q[0]);
        law_rank_order_is_total(r[0].rank_key(), q[0].rank_key());
        if i > 0 {
            assert(!ranks_before(r[i].rank_key(), r[0].rank_key()));
            assert(r[0].rank_key() != r[i].rank_key());
            if j > 0 {
                assert(!ranks_before(q[j].rank_key(), q[0].rank_key()));
            }
            assert(false);
        }
        assert(r[0] == q[0]);
        let r2 = r.remove(0);
        let q2 = q.remove(0);
        vstd::seq_lib::to_multiset_remove(r, 0);
        vstd::seq_lib::to_multiset_remove(q, 0);
        assert forall|a: int, b: int| 0 <= a < b < r2.len() implies !ranks_before(
            (#[trigger] r2[b]).rank_key(),
            (#[trigger] r2[a]).rank_key(),
        ) && r2[a].rank_key() != r2[b].rank_key() by {
            assert(r2[a] == r[a + 1] && r2[b] == r[b + 1]);
        }
        assert forall|a: int, b: int| 0 <= a < b < q2.len() implies !ranks_before(
            (#[trigger] q2[b]).rank_key(),
            (#[trigger] q2[a]).rank_key(),
        ) by {
            assert(q2[a] == q[a + 1] && q2[b] == q[b + 1]);
        }
        lemma_orderings_agree(r2, q2);
        assert(r =~= seq![r[0]] + r2);
        assert(q =~= seq![q[0]] + q2);
    } else {
        assert(r =~= q);
    }
}

/// Ranking does not depend on the order in which entries of different rank
/// arrive.
pub proof fn law_ranking_ignores_arrival_order<T: Ranked>(a: Seq<T>, b: Seq<T>)
    requires
        a.to_multiset() == b.to_multiset(),
        distinct_ranks(a),
    ensures
        ranked(a) == ranked(b),
{
    law_ranked(a);
    law_ranked(b);
    lemma_distinct_ranks_of_permutation(a, ranked(a));
    lemma_orderings_agree(ranked(a), ranked(b));
}

/// Results of the same chunk id from two stores are two entries.
pub proof fn law_same_chunk_in_two_stores_is_two_entries(
    candidates: Seq<Candidate>,
    dense: Seq<SearchResult>,
    bm25: Seq<SearchResult>,
    i: int,
    j: int,
)
    requires
        fuses(candidates, dense, bm25),
        0 <= i < (dense + bm25).len(),
        0 <= j < (dense + bm25).len(),
        (dense + bm25)[i].chunk.store_id@ != (dense + bm25)[j].chunk.store_id@,
    ensures
        exists|a: int, b: int|
            0 <= a < candidates.len() && 0 <= b < candidates.len() && a != b && fusion_key(
                (#[trigger] candidates[a]).chunk,
            ) == fusion_key((dense + bm25)[i].chunk) && fusion_key(
                (#[trigger] candidates[b]).chunk,
            ) == fusion_key((dense + bm25)[j].chunk),
{
    let x = fusion_key((dense + bm25)[i].chunk);
    let y = fusion_key((dense + bm25)[j].chunk);
    assert(has_entry(candidates, x));
    assert(has_entry(candidates, y));
    let a = choose|a: int|
        0 <= a < candidates.len() && fusion_key((#[trigger] candidates[a]).chunk) == x;
    let b = choose|b: int|
        0 <= b < candidates.len() && fusion_key((#[trigger] candidates[b]).chunk) == y;
    assert(a != b);
}

proof fn lemma_own_results(results: Seq<SearchResult>, store_id: Seq<char>, i: int)
    requires
        0 <= i < own_results(results, store_id).len(),
    ensures
        own_results(results, store_id)[i].chunk.store_id@ == store_id,
    decreases results.len(),
{
    if results.len() > 0 {
        let front = own_results(results.drop_last(), store_id);
        if i < front.len() {
            lemma_own_results(results.drop_last(), store_id, i);
        }
    }
}

/// Every pooled result carries the id of a store that was searched.
pub proof fn law_pooled_results_are_attributed(
    stores: Seq<StoreHandle>,
    legs: Seq<Vec<SearchResult>>,
    i: int,
)
    requires
        stores.len() == legs.len(),
        0 <= i < pool(stores, legs).len(),
    ensures
        exists|k: int|
            0 <= k < stores.len() && (#[trigger] stores[k]).id@ == pool(
                stores,
                legs,
            )[i].chunk.store_id@,
    decreases legs.len(),
{
    if legs.len() > 0 {
        let front = pool(stores.drop_last(), legs.drop_last());
        if i < front.len() {
            law_pooled_results_are_attributed(stores.drop_last(), legs.drop_last(), i);
            let k = choose|k: int|
                0 <= k < stores.drop_last().len() && (#[trigger] stores.drop_last()[k]).id@
                    == front[i].chunk.store_id@;
            assert(stores[k] == stores.drop_last()[k]);
        } else {
            lemma_own_results(legs.last()@, stores.last().id@, i - front.len());
            assert(stores[stores.len() - 1] == stores.last());
        }
    }
}

// ---------------------------------------------------------------------------
// Pooling is complete
// ---------------------------------------------------------------------------

/// Of a result, exactly those of its own store are kept, one by one and in order.
pub proof fn law_own_results_are_kept(
    a: Seq<SearchResult>,
    b: Seq<SearchResult>,
    x: SearchResult,
    store_id: Seq<char>,
)
    ensures
        own_results(Seq::empty(), store_id) == Seq::<SearchResult>::empty(),
        own_results(seq![x], store_id) == if x.chunk.store_id@ == store_id {
            seq![x]
        } else {
            Seq::empty()
        },
        own_results(a + b, store_id) == own_results(a, store_id) + own_results(b, store_id),
    decreases b.len(),
{
    reveal_with_fuel(own_results, 2);
    assert(seq![x].drop_last() =~= Seq::empty());
    assert(Seq::<SearchResult>::empty().push(x) =~= seq![x]);
    if b.len() == 0 {
        assert(a + b =~= a);
        assert(own_results(a, store_id) + own_results(b, store_id) =~= own_results(a, store_id));
    } else {
        law_own_results_are_kept(a, b.drop_last(), x, store_id);
        assert((a + b).drop_last() =~= a + b.drop_last());
        assert(own_results(a + b, store_id) =~= own_results(a, store_id) + own_results(b, store_id));
    }
}

/// Where all results of a store carry its id, all are kept as they are.
pub proof fn law_own_leg_is_kept_whole(results: Seq<SearchResult>, store_id: Seq<char>)
    requires
        forall|i: int| 0 <= i < results.len() ==> (#[trigger] results[i]).chunk.store_id@ == store_id,
    ensures
        own_results(results, store_id) == results,
    decreases results.len(),
{
    if results.len() > 0 {
        let front = results.drop_last();
        assert forall|i: int| 0 <= i < front.len() implies (#[trigger] front[i]).chunk.store_id@
            == store_id by {
            assert(front[i] == results[i]);
        }
        law_own_leg_is_kept_whole(front, store_id);
        assert(results[results.len() - 1] == results.last());
        assert(front.push(results.last()) =~= results);
    }
}

/// A result occurs among the own results as often as in the leg where it carries
/// the store's id, and never where it does not.
pub proof fn law_own_results_count(
    results: Seq<SearchResult>,
    store_id: Seq<char>,
    x: SearchResult,
)
    ensures
        own_results(results, store_id).to_multiset().count(x) == if x.chunk.store_id@ == store_id {
            results.to_multiset().count(x)
        } else {
            0
        },
    decreases results.len(),
{
    broadcast use group_multiset_axioms;

    let own = own_results(results, store_id);
    if results.len() > 0 {
        let front = results.drop_last();
        law_own_results_count(front, store_id, x);
        assert(results =~= front.push(results.last()));
        vstd::seq_lib::to_multiset_build(front, results.last());
        vstd::seq_lib::to_multiset_build(own_results(front, store_id), results.last());
    } else {
        own.to_multiset_ensures();
        results.to_multiset_ensures();
    }
}

/// The number of times that the stores returned `x` under its own id.
pub open spec fn returned_by_own_store(
    stores: Seq<StoreHandle>,
    legs: Seq<Vec<SearchResult>>,
    x: SearchResult,
) -> nat
    decreases legs.len(),
{
    if legs.len() == 0 {
        0
    } else {
        returned_by_own_store(stores.drop_last(), legs.drop_last(), x) + if stores.last().id@
            == x.chunk.store_id@ {
            legs.last()@.to_multiset().count(x)
        } else {
            0
        }
    }
}

/// Pooling is complete: a result occurs in the pool exactly as often as stores
/// returned it under their own id.
pub proof fn law_pool_is_complete(
    stores: Seq<StoreHandle>,
    legs: Seq<Vec<SearchResult>>,
    x: SearchResult,
)
    requires
        stores.len() == legs.len(),
    ensures
        pool(stores, legs).to_multiset().count(x) == returned_by_own_store(stores, legs, x),
    decreases legs.len(),
{
    broadcast use group_multiset_axioms;

    if legs.len() > 0 {
        law_pool_is_complete(stores.drop_last(), legs.drop_last(), x);
        law_own_results_count(legs.last()@, stores.last().id@, x);
        let a = pool(stores.drop_last(), legs.drop_last());
        let b = own_results(legs.last()@, stores.last().id@);
        vstd::seq_lib::lemma_multiset_commutative(a, b);
    } else {
        pool(stores, legs).to_multiset_ensures();
    }
}

/// Every result that carries the id of the store that returned it is in the pool,
/// and in the ranking that is made of the pool.
pub proof fn law_own_results_reach_the_pool(
    stores: Seq<StoreHandle>,
    legs: Seq<Vec<SearchResult>>,
    k: int,
    j: int,
)
    requires
        stores.len() == legs.len(),
        0 <= k < legs.len(),
        0 <= j < legs[k]@.len(),
        legs[k]@[j].chunk.store_id@ == stores[k].id@,
    ensures
        pool(stores, legs).contains(legs[k]@[j]),
        ranked(pool(stores, legs)).contains(legs[k]@[j]),
    decreases legs.len(),
{
    broadcast use group_multiset_axioms;

    let x = legs[k]@[j];
    let all = pool(stores, legs);
    let a = pool(stores.drop_last(), legs.drop_last());
    let b = own_results(legs.last()@, stores.last().id@);
    if k < legs.len() - 1 {
        assert(legs.drop_last()[k] == legs[k]);
        assert(stores.drop_last()[k] == stores[k]);
        law_own_results_reach_the_pool(stores.drop_last(), legs.drop_last(), k, j);
        let i = a.index_of(x);
        assert(all[i] == x);
    } else {
        law_own_results_count(legs.last()@, stores.last().id@, x);
        legs.last()@.to_multiset_ensures();
        b.to_multiset_ensures();
        assert(legs.last()@.contains(x));
        assert(b.contains(x));
        let i = b.index_of(x);
        assert(all[a.len() + i] == x);
    }
    law_ranked(all);
    all.to_multiset_ensures();
    ranked(all).to_multiset_ensures();
    assert(all.to_multiset().count(x) > 0);
}

// ---------------------------------------------------------------------------
// Fusion
// ---------------------------------------------------------------------------

/// The ranks of an entry are the places at which it stands, all of them, in
/// order.
pub proof fn law_ranks_are_the_places(results: Seq<SearchResult>, key: FusionKey)
    requires
        results.len() <= usize::MAX,
    ensures
        forall|i: int|
            0 <= i < results.len() ==> (fusion_key((#[trigger] results[i]).chunk) == key
                <==> ranks_of(results, key).contains(i as usize)),
        forall|a: int|
            0 <= a < ranks_of(results, key).len() ==> (#[trigger] ranks_of(results, key)[a])
                < results.len(),
        forall|a: int, b: int|
            0 <= a < b < ranks_of(results, key).len() ==> (#[trigger] ranks_of(results, key)[a])
                < (#[trigger] ranks_of(results, key)[b]),
    decreases results.len(),
{
    if results.len() > 0 {
        let front = results.drop_last();
        let before = ranks_of(front, key);
        let all = ranks_of(results, key);
        law_ranks_are_the_places(front, key);
        assert forall|i: int| 0 <= i < results.len() implies (fusion_key(
            (#[trigger] results[i]).chunk,
        ) == key <==> all.contains(i as usize)) by {
            if i < front.len() {
                assert(front[i] == results[i]);
                if before.contains(i as usize) {
                    let a = before.index_of(i as usize);
                    assert(all[a] == i as usize);
                }
                if all.contains(i as usize) {
                    let a = all.index_of(i as usize);
                    if a < before.len() {
                        assert(before[a] == i as usize);
                    }
                }
            } else {
                if fusion_key(results[i].chunk) == key {
                    assert(all[before.len() as int] == i as usize);
                } else if before.contains(i as usize) {
                    let a = before.index_of(i as usize);
                    assert(before[a] < front.len());
                }
            }
        }
    }
}

/// The score that a leg gives an entry is that of its last result, and the chunk
/// that is cited is that of its first.
pub proof fn law_leg_score_and_chunk(results: Seq<SearchResult>, key: FusionKey, i: int)
    requires
        0 <= i < results.len(),
        fusion_key(results[i].chunk) == key,
    ensures
        (forall|j: int| i < j < results.len() ==> fusion_key((#[trigger] results[j]).chunk) != key)
            ==> leg_score(results, key) == Some(results[i].score),
        (forall|j: int| 0 <= j < i ==> fusion_key((#[trigger] results[j]).chunk) != key)
            ==> first_chunk(results, key) == Some(results[i].chunk),
    decreases results.len(),
{
    let front = results.drop_last();
    if i < front.len() {
        law_leg_score_and_chunk(front, key, i);
        if forall|j: int| i < j < results.len() ==> fusion_key((#[trigger] results[j]).chunk) != key {
            assert(fusion_key(results[results.len() - 1].chunk) != key);
            assert forall|j: int| i < j < front.len() implies fusion_key(
                (#[trigger] front[j]).chunk,
            ) != key by {
                assert(front[j] == results[j]);
            }
        }
        if forall|j: int| 0 <= j < i ==> fusion_key((#[trigger] results[j]).chunk) != key {
            assert forall|j: int| 0 <= j < i implies fusion_key((#[trigger] front[j]).chunk)
                != key by {
                assert(front[j] == results[j]);
            }
        }
    } else {
        if forall|j: int| 0 <= j < i ==> fusion_key((#[trigger] results[j]).chunk) != key {
            assert forall|j: int| 0 <= j < front.len() implies fusion_key(
                (#[trigger] front[j]).chunk,
            ) != key by {
                assert(front[j] == results[j]);
            }
            lemma_absent_entry(front, key);
        }
    }
}

/// A leg without the entry gives it neither rank nor score.
pub proof fn lemma_absent_entry(results: Seq<SearchResult>, key: FusionKey)
    requires
        forall|j: int| 0 <= j < results.len() ==> fusion_key((#[trigger] results[j]).chunk) != key,
    ensures
        ranks_of(results, key).len() == 0,
        leg_score(results, key) is None,
        first_chunk(results, key) is None,
    decreases results.len(),
{
    if results.len() > 0 {
        let front = results.drop_last();
        assert forall|j: int| 0 <= j < front.len() implies fusion_key((#[trigger] front[j]).chunk)
            != key by {
            assert(front[j] == results[j]);
        }
        assert(fusion_key(results[results.len() - 1].chunk) != key);
        lemma_absent_entry(front, key);
    }
}

/// An entry is told by the ids of its store and of its chunk, both and nothing
/// else.
pub proof fn law_entries_are_told_by_ids(a: ChunkRecord, b: ChunkRecord)
    ensures
        fusion_key(a) == fusion_key(b) <==> a.store_id@ == b.store_id@ && a.id@ == b.id@,
{
}

/// The candidates of two rankings: every entry of either is one of them, with its
/// places in both, and a leg that does not hold it gives it none.
pub proof fn law_candidates_stand_for_entries(
    candidates: Seq<Candidate>,
    dense: Seq<SearchResult>,
    bm25: Seq<SearchResult>,
    c: int,
    i: int,
)
    requires
        fuses(candidates, dense, bm25),
        dense.len() <= usize::MAX,
        bm25.len() <= usize::MAX,
        0 <= c < candidates.len(),
    ensures
        0 <= i < dense.len() ==> (candidates[c].dense_ranks@.contains(i as usize)
            <==> dense[i].chunk.store_id@ == candidates[c].chunk.store_id@ && dense[i].chunk.id@
            == candidates[c].chunk.id@),
        0 <= i < bm25.len() ==> (candidates[c].bm25_ranks@.contains(i as usize)
            <==> bm25[i].chunk.store_id@ == candidates[c].chunk.store_id@ && bm25[i].chunk.id@
            == candidates[c].chunk.id@),
        candidates[c].dense_ranks@.len() == 0 <==> candidates[c].dense_score is None,
        candidates[c].bm25_ranks@.len() == 0 <==> candidates[c].bm25_score is None,
{
    let key = fusion_key(candidates[c].chunk);
    law_ranks_are_the_places(dense, key);
    law_ranks_are_the_places(bm25, key);
    lemma_ranks_and_score(dense, key);
    lemma_ranks_and_score(bm25, key);
    if 0 <= i < dense.len() {
        assert(fusion_key(dense[i].chunk) == key <==> ranks_of(dense, key).contains(i as usize));
    }
    if 0 <= i < bm25.len() {
        assert(fusion_key(bm25[i].chunk) == key <==> ranks_of(bm25, key).contains(i as usize));
    }
}

proof fn lemma_ranks_and_score(results: Seq<SearchResult>, key: FusionKey)
    ensures
        ranks_of(results, key).len() == 0 <==> leg_score(results, key) is None,
    decreases results.len(),
{
    if results.len() > 0 {
        lemma_ranks_and_score(results.drop_last(), key);
    }
}

/// A candidate keeps its chunk and its leg scores when it is scored, and takes the
/// score that stands at its own place.
pub proof fn law_scored_candidates(candidates: Seq<Candidate>, scores: Seq<u64>, i: int)
    requires
        candidates.len() == scores.len(),
        0 <= i < candidates.len(),
    ensures
        all_scored(candidates, scores).len() == candidates.len(),
        all_scored(candidates, scores)[i].chunk == candidates[i].chunk,
        all_scored(candidates, scores)[i].fused_score == scores[i],
        all_scored(candidates, scores)[i].dense_score == candidates[i].dense_score,
        all_scored(candidates, scores)[i].bm25_score == candidates[i].bm25_score,
{
}

// ---------------------------------------------------------------------------
// Order and citations
// ---------------------------------------------------------------------------

/// Bits of floats are in the order of the floats: from the sign bit on the order
/// is reversed and lies below all others, and both zeros are equal.
pub proof fn law_float_order(a: u64, b: u64)
    ensures
        a < 0x8000_0000_0000_0000 && b < 0x8000_0000_0000_0000 ==> (float_order(a) < float_order(b)
            <==> a < b),
        a >= 0x8000_0000_0000_0000 && b >= 0x8000_0000_0000_0000 ==> (float_order(a) < float_order(b)
            <==> a > b),
        a >= 0x8000_0000_0000_0000 && b < 0x8000_0000_0000_0000 ==> float_order(a) <= float_order(b)
            && (float_order(a) == float_order(b) <==> a == 0x8000_0000_0000_0000 && b == 0),
{
}

/// A result of a higher score ranks first; of equal scores the smaller store id
/// decides, and in one store the smaller chunk id.
pub proof fn law_results_rank_by_score_store_and_chunk(a: SearchResult, b: SearchResult)
    ensures
        ranks_before(a.rank_key(), b.rank_key()) <==> {
            ||| float_order(a.score) > float_order(b.score)
            ||| float_order(a.score) == float_order(b.score) && text_before(
                a.chunk.store_id@,
                b.chunk.store_id@,
            )
            ||| float_order(a.score) == float_order(b.score) && a.chunk.store_id@
                == b.chunk.store_id@ && text_before(a.chunk.id@, b.chunk.id@)
        },
{
}

/// Fused entries rank by their fused score in the same way.
pub proof fn law_entries_rank_by_score_store_and_chunk(a: FusedChunkEntry, b: FusedChunkEntry)
    ensures
        ranks_before(a.rank_key(), b.rank_key()) <==> {
            ||| float_order(a.fused_score) > float_order(b.fused_score)
            ||| float_order(a.fused_score) == float_order(b.fused_score) && text_before(
                a.chunk.store_id@,
                b.chunk.store_id@,
            )
            ||| float_order(a.fused_score) == float_order(b.fused_score) && a.chunk.store_id@
                == b.chunk.store_id@ && text_before(a.chunk.id@, b.chunk.id@)
        },
{
}

/// A citation says of its entry what the chunk says: ids, address, headings,
/// block, place, text, scores and provenance.
pub proof fn law_citations_say_what_the_chunk_says(
    c: Citation,
    e: FusedChunkEntry,
    id: Seq<char>,
    name: Seq<char>,
)
    requires
        cites(c, e, id, name),
    ensures
        c.chunk_id == e.chunk.id,
        c.resource_id == e.chunk.resource_id,
        c.store.id@ == id,
        c.store.name@ == name,
        c.uri == e.chunk.uri,
        c.heading_path == e.chunk.heading_path,
        c.block.seq == e.chunk.block_seq,
        c.block.kind == e.chunk.block_kind,
        c.block.page == e.chunk.page,
        c.chunk_position.seq_in_block == e.chunk.seq_in_block,
        c.location.span == e.chunk.span,
        c.location.window_block_seqs == e.chunk.window_block_seqs,
        c.snippet == e.chunk.text,
        c.score.fused == e.fused_score,
        c.score.dense == e.dense_score,
        c.score.bm25 == e.bm25_score,
        c.provenance.fetched_at == e.chunk.fetched_at,
        c.provenance.content_hash == e.chunk.content_hash,
        c.metadata == e.chunk.metadata,
        optional_text(c.title) == (match e.chunk.metadata {
            Metadata::Document(m) => optional_text(m.dublin_core.title),
            Metadata::Conversation(m) => optional_text(m.dublin_core.title),
            Metadata::Transcription(m) => optional_text(m.dublin_core.title),
        }),
{
}

/// The name of a store is that of its handle, of several with one id that of the
/// last, and empty where there is none.
pub proof fn law_store_names(stores: Seq<StoreHandle>, id: Seq<char>, k: int)
    ensures
        0 <= k < stores.len() && stores[k].id@ == id && (forall|j: int|
            k < j < stores.len() ==> (#[trigger] stores[j]).id@ != id) ==> store_name(stores, id)
            == stores[k].name@,
        (forall|j: int| 0 <= j < stores.len() ==> (#[trigger] stores[j]).id@ != id) ==> store_name(
            stores,
            id,
        ).len() == 0,
    decreases stores.len(),
{
    if stores.len() > 0 {
        let front = stores.drop_last();
        law_store_names(front, id, k);
        if 0 <= k < stores.len() && stores[k].id@ == id && (forall|j: int|
            k < j < stores.len() ==> (#[trigger] stores[j]).id@ != id) && k < front.len() {
            assert(stores[stores.len() - 1].id@ != id);
            assert(front[k] == stores[k]);
            assert forall|j: int| k < j < front.len() implies (#[trigger] front[j]).id@ != id by {
                assert(front[j] == stores[j]);
            }
        }
        if forall|j: int| 0 <= j < stores.len() ==> (#[trigger] stores[j]).id@ != id {
            assert(stores[stores.len() - 1].id@ != id);
            assert forall|j: int| 0 <= j < front.len() implies (#[trigger] front[j]).id@ != id by {
                assert(front[j] == stores[j]);
            }
        }
    }
}

/// As many citations as there are entries, and no more than are asked for.
pub proof fn law_as_many_as_there_are_and_are_asked_for(entries: nat, asked: nat)
    ensures
        shorter(entries, asked) <= entries,
        shorter(entries, asked) <= asked,
        shorter(entries, asked) == entries || shorter(entries, asked) == asked,
{
}

/// Every result of either leg has its candidate, and no two candidates stand for one
/// chunk of one store.
pub proof fn law_every_result_has_one_candidate(
    candidates: Seq<Candidate>,
    dense: Seq<SearchResult>,
    bm25: Seq<SearchResult>,
    i: int,
    j: int,
)
    requires
        fuses(candidates, dense, bm25),
    ensures
        0 <= i < j < candidates.len() ==> candidates[i].chunk.store_id@
            != candidates[j].chunk.store_id@ || candidates[i].chunk.id@ != candidates[j].chunk.id@,
        0 <= i < dense.len() ==> exists|c: int|
            0 <= c < candidates.len() && (#[trigger] candidates[c]).chunk.store_id@
                == dense[i].chunk.store_id@ && candidates[c].chunk.id@ == dense[i].chunk.id@,
        0 <= i < bm25.len() ==> exists|c: int|
            0 <= c < candidates.len() && (#[trigger] candidates[c]).chunk.store_id@
                == bm25[i].chunk.store_id@ && candidates[c].chunk.id@ == bm25[i].chunk.id@,
{
    let all = dense + bm25;
    if 0 <= i < dense.len() {
        assert(all[i] == dense[i]);
        let key = fusion_key(all[i].chunk);
        let c = choose|c: int|
            0 <= c < candidates.len() && fusion_key((#[trigger] candidates[c]).chunk) == key;
        assert(fusion_key(candidates[c].chunk) == key);
    }
    if 0 <= i < bm25.len() {
        assert(all[dense.len() + i] == bm25[i]);
        let key = fusion_key(all[dense.len() + i].chunk);
        let c = choose|c: int|
            0 <= c < candidates.len() && fusion_key((#[trigger] candidates[c]).chunk) == key;
        assert(fusion_key(candidates[c].chunk) == key);
    }
}

} // verus!
