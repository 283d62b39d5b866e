//! Hybrid search.

use localdb_core::metadata::{DocumentMetadata, DublinCoreMetadata, Metadata};
use localdb_core::search::{
    clamp_search_limit, group_legs, pool_leg_results, rank_fused, rerank_noop, retain_own_chunks,
    shape_citation, Candidate, FusedChunkEntry, QueryRequest, SearchOrchestrator, SearchResult,
    StoreHandle, DEFAULT_LEG_K, DEFAULT_TOP_N, RRF_K, SEARCH_MAX_LIMIT,
};
use localdb_core::types::{ChunkRecord, Span};

fn bits(x: f64) -> u64 {
    x.to_bits()
}

struct Fused {
    chunk: ChunkRecord,
    fused_score: f64,
    dense_score: Option<f64>,
    bm25_score: Option<f64>,
}

fn fused_score(c: &Candidate, k: f64) -> u64 {
    let mut sum = 0.0f64;
    for rank in c.dense_ranks.iter().chain(c.bm25_ranks.iter()) {
        sum += 1.0 / (k + (*rank as f64) + 1.0);
    }
    sum.to_bits()
}

fn rrf_fuse_global(dense: &[SearchResult], bm25: &[SearchResult], k: f64) -> Vec<Fused> {
    let candidates = group_legs(dense.to_vec(), bm25.to_vec());
    let scores: Vec<u64> = candidates.iter().map(|c| fused_score(c, k)).collect();
    rank_fused(candidates, &scores)
        .into_iter()
        .map(|e| Fused {
            chunk: e.chunk,
            fused_score: f64::from_bits(e.fused_score),
            dense_score: e.dense_score.map(f64::from_bits),
            bm25_score: e.bm25_score.map(f64::from_bits),
        })
        .collect()
}

fn make_chunk(
    id: &str,
    doc_id: &str,
    store_id: &str,
    text: &str,
    heading_path: Vec<String>,
    uri: &str,
    embedding: Vec<f32>,
) -> ChunkRecord {
    ChunkRecord {
        id: id.to_string(),
        resource_id: doc_id.to_string(),
        store_id: store_id.to_string(),
        text: text.to_string(),
        span: Span::new(0, text.len()),
        heading_path,
        embedding: embedding.into_iter().map(f32::to_bits).collect(),
        policy_version: "v1".to_string(),
        fetched_at: "2026-06-10T12:00:00Z".to_string(),
        content_hash: "abc123".to_string(),
        origin_store: store_id.to_string(),
        source_id: "src-1".to_string(),
        ingestor_kind: "path".to_string(),
        mime: Some("text/markdown".to_string()),
        uri: uri.to_string(),
        metadata: Metadata::default(),
        block_seq: 0,
        seq_in_block: 0,
        block_kind: None,
        page: None,
        window_block_seqs: vec![],
    }
}

fn make_search_result(chunk: ChunkRecord, score: f32) -> SearchResult {
    SearchResult {
        chunk,
        score: (score as f64).to_bits(),
    }
}

#[test]
fn clamp_search_limit_passes_through_values_at_or_below_the_max() {
    assert_eq!(clamp_search_limit(1), 1);
    assert_eq!(clamp_search_limit(SEARCH_MAX_LIMIT), SEARCH_MAX_LIMIT);
}

#[test]
fn clamp_search_limit_caps_values_above_the_max() {
    assert_eq!(clamp_search_limit(SEARCH_MAX_LIMIT + 1), SEARCH_MAX_LIMIT);
    assert_eq!(clamp_search_limit(100_000), SEARCH_MAX_LIMIT);
    assert_eq!(clamp_search_limit(usize::MAX), SEARCH_MAX_LIMIT);
}

#[test]
fn rrf_fuse_global_hand_computed_scores_single_store() {
    let chunk_a = make_chunk(
        "A",
        "doc-1",
        "s1",
        "text A",
        vec![],
        "file:///a.md",
        vec![1.0, 0.0],
    );
    let chunk_b = make_chunk(
        "B",
        "doc-2",
        "s1",
        "text B",
        vec![],
        "file:///b.md",
        vec![0.9, 0.1],
    );
    let chunk_c = make_chunk(
        "C",
        "doc-3",
        "s1",
        "text C",
        vec![],
        "file:///c.md",
        vec![0.8, 0.2],
    );
    let chunk_d = make_chunk(
        "D",
        "doc-4",
        "s1",
        "text D",
        vec![],
        "file:///d.md",
        vec![0.7, 0.3],
    );

    let dense = vec![
        make_search_result(chunk_a.clone(), 0.99),
        make_search_result(chunk_b.clone(), 0.88),
        make_search_result(chunk_c.clone(), 0.75),
    ];
    let bm25 = vec![
        make_search_result(chunk_a.clone(), 10.0),
        make_search_result(chunk_b.clone(), 8.0),
        make_search_result(chunk_d.clone(), 5.0),
    ];

    let fused = rrf_fuse_global(&dense, &bm25, 60.0);

    assert_eq!(fused[0].chunk.id, "A", "A should be rank 1");

    assert_eq!(fused[1].chunk.id, "B", "B should be rank 2");

    assert!(
        fused[2].chunk.id == "C" || fused[2].chunk.id == "D",
        "C or D should be rank 3"
    );
    assert!(
        fused[3].chunk.id == "C" || fused[3].chunk.id == "D",
        "C or D should be rank 4"
    );

    let expected_a = 1.0 / 61.0 + 1.0 / 61.0;
    assert!(
        (fused[0].fused_score - expected_a).abs() < 1e-10,
        "A's fused score should be 2/61, got {}",
        fused[0].fused_score
    );

    let expected_b = 1.0 / 62.0 + 1.0 / 62.0;
    assert!(
        (fused[1].fused_score - expected_b).abs() < 1e-10,
        "B's fused score should be 2/62, got {}",
        fused[1].fused_score
    );

    let dense_score = fused[0]
        .dense_score
        .expect("A's dense score should be present");
    assert!(
        (dense_score - 0.99f64).abs() < 1e-4,
        "A's dense score should be ~0.99, got {dense_score}"
    );
    let bm25_score = fused[0]
        .bm25_score
        .expect("A's BM25 score should be present");
    assert!(
        (bm25_score - 10.0f64).abs() < 1e-4,
        "A's BM25 score should be ~10.0, got {bm25_score}"
    );

    let c = fused.iter().find(|e| e.chunk.id == "C").unwrap();
    assert!(c.dense_score.is_some(), "C should have a dense score");
    assert!(c.bm25_score.is_none(), "C should have no BM25 score");

    let d = fused.iter().find(|e| e.chunk.id == "D").unwrap();
    assert!(d.dense_score.is_none(), "D should have no dense score");
    assert!(d.bm25_score.is_some(), "D should have a BM25 score");
}

#[test]
fn rrf_fuse_global_tie_ordering_is_deterministic() {
    let chunk_a = make_chunk(
        "A",
        "doc-1",
        "s1",
        "text A",
        vec![],
        "file:///a.md",
        vec![1.0],
    );
    let chunk_z = make_chunk(
        "Z",
        "doc-2",
        "s1",
        "text Z",
        vec![],
        "file:///z.md",
        vec![0.5],
    );

    let dense = vec![make_search_result(chunk_z.clone(), 0.9)];
    let bm25 = vec![make_search_result(chunk_a.clone(), 5.0)];

    let fused = rrf_fuse_global(&dense, &bm25, 60.0);
    assert_eq!(fused.len(), 2);

    assert_eq!(fused[0].chunk.id, "A");
    assert_eq!(fused[1].chunk.id, "Z");
}

#[test]
fn rrf_fuse_global_single_leg_only_bm25() {
    let chunk = make_chunk(
        "X",
        "doc-1",
        "s1",
        "text X",
        vec![],
        "file:///x.md",
        vec![1.0],
    );
    let bm25 = vec![make_search_result(chunk.clone(), 7.5)];
    let fused = rrf_fuse_global(&[], &bm25, 60.0);

    assert_eq!(fused.len(), 1);
    assert_eq!(fused[0].chunk.id, "X");
    assert!(fused[0].dense_score.is_none());
    assert!(fused[0].bm25_score.is_some());
    let expected = 1.0 / 61.0;
    assert!((fused[0].fused_score - expected).abs() < 1e-10);
}

#[test]
fn rrf_fuse_global_single_leg_only_dense() {
    let chunk = make_chunk(
        "Y",
        "doc-1",
        "s1",
        "text Y",
        vec![],
        "file:///y.md",
        vec![1.0],
    );
    let dense = vec![make_search_result(chunk.clone(), 0.85)];
    let fused = rrf_fuse_global(&dense, &[], 60.0);

    assert_eq!(fused.len(), 1);
    assert_eq!(fused[0].chunk.id, "Y");
    assert!(fused[0].dense_score.is_some());
    assert!(fused[0].bm25_score.is_none());
}

#[test]
fn rrf_fuse_global_empty_inputs() {
    let fused = rrf_fuse_global(&[], &[], 60.0);
    assert!(fused.is_empty());
}

#[test]
fn rrf_fuse_global_single_chunk_both_legs() {
    let chunk = make_chunk(
        "X",
        "doc-1",
        "s1",
        "text",
        vec![],
        "file:///x.md",
        vec![1.0],
    );
    let dense = vec![make_search_result(chunk.clone(), 0.95)];
    let bm25 = vec![make_search_result(chunk.clone(), 9.0)];
    let fused = rrf_fuse_global(&dense, &bm25, 60.0);

    assert_eq!(fused.len(), 1);
    let expected = 2.0 / 61.0;
    assert!((fused[0].fused_score - expected).abs() < 1e-10);
}

#[test]
fn rrf_fuse_global_multiple_results_ordering() {
    let chunks: Vec<ChunkRecord> = (0..5)
        .map(|i| {
            make_chunk(
                &format!("{i}"),
                "doc-1",
                "s1",
                &format!("text {i}"),
                vec![],
                &format!("file:///{i}.md"),
                vec![1.0],
            )
        })
        .collect();

    let dense: Vec<SearchResult> = chunks
        .iter()
        .rev()
        .cloned()
        .map(|chunk| SearchResult {
            chunk,
            score: bits(1.0),
        })
        .collect();

    let fused = rrf_fuse_global(&dense, &[], 60.0);
    assert_eq!(fused.len(), 5);

    for i in 0..fused.len() - 1 {
        assert!(
            fused[i].fused_score > fused[i + 1].fused_score,
            "scores must be strictly decreasing: rank {} ({}) vs rank {} ({})",
            i,
            fused[i].fused_score,
            i + 1,
            fused[i + 1].fused_score,
        );
    }

    assert_eq!(
        fused[0].chunk.id, "4",
        "chunk-4 (dense rank 0) should be first in fused output"
    );

    assert_eq!(
        fused[4].chunk.id, "0",
        "chunk-0 (dense rank 4) should be last in fused output"
    );
}

#[test]
fn rrf_fuse_global_same_chunk_id_in_two_stores_stay_distinct() {
    let chunk_in_store_1 = make_chunk(
        "shared-id",
        "doc-1",
        "store-1",
        "text in store 1",
        vec![],
        "file:///store1/a.md",
        vec![1.0],
    );
    let chunk_in_store_2 = make_chunk(
        "shared-id",
        "doc-2",
        "store-2",
        "text in store 2",
        vec![],
        "file:///store2/a.md",
        vec![1.0],
    );

    let dense = vec![make_search_result(chunk_in_store_1.clone(), 0.9)];
    let bm25 = vec![make_search_result(chunk_in_store_2.clone(), 5.0)];

    let fused = rrf_fuse_global(&dense, &bm25, 60.0);

    assert_eq!(
        fused.len(),
        2,
        "same chunk_id under two different store_ids must yield two distinct entries, got {}",
        fused.len()
    );

    let entry_1 = fused
        .iter()
        .find(|e| e.chunk.store_id == "store-1")
        .expect("store-1's entry should be present");
    assert_eq!(entry_1.chunk.id, "shared-id");
    assert!(
        entry_1.dense_score.is_some(),
        "store-1's entry should carry the dense score"
    );
    assert!(
        entry_1.bm25_score.is_none(),
        "store-1's entry should not carry store-2's bm25 score"
    );

    let entry_2 = fused
        .iter()
        .find(|e| e.chunk.store_id == "store-2")
        .expect("store-2's entry should be present");
    assert_eq!(entry_2.chunk.id, "shared-id");
    assert!(
        entry_2.bm25_score.is_some(),
        "store-2's entry should carry the bm25 score"
    );
    assert!(
        entry_2.dense_score.is_none(),
        "store-2's entry should not carry store-1's dense score"
    );
}

#[test]
fn rrf_fuse_global_hand_computed_scores_across_stores() {
    let chunk_a = make_chunk(
        "A",
        "doc-1",
        "s1",
        "text A",
        vec![],
        "file:///a.md",
        vec![1.0, 0.0],
    );
    let chunk_b = make_chunk(
        "B",
        "doc-2",
        "s2",
        "text B",
        vec![],
        "file:///b.md",
        vec![0.9, 0.1],
    );
    let chunk_c = make_chunk(
        "C",
        "doc-3",
        "s1",
        "text C",
        vec![],
        "file:///c.md",
        vec![0.8, 0.2],
    );
    let chunk_d = make_chunk(
        "D",
        "doc-4",
        "s2",
        "text D",
        vec![],
        "file:///d.md",
        vec![0.7, 0.3],
    );

    let dense = vec![
        make_search_result(chunk_a.clone(), 0.99),
        make_search_result(chunk_b.clone(), 0.88),
        make_search_result(chunk_c.clone(), 0.75),
    ];
    let bm25 = vec![
        make_search_result(chunk_a.clone(), 10.0),
        make_search_result(chunk_b.clone(), 8.0),
        make_search_result(chunk_d.clone(), 5.0),
    ];

    let fused = rrf_fuse_global(&dense, &bm25, 60.0);

    assert_eq!(fused[0].chunk.id, "A", "A should be rank 1");
    assert_eq!(fused[0].chunk.store_id, "s1");

    assert_eq!(fused[1].chunk.id, "B", "B should be rank 2");
    assert_eq!(fused[1].chunk.store_id, "s2");

    let expected_a = 1.0 / 61.0 + 1.0 / 61.0;
    assert!(
        (fused[0].fused_score - expected_a).abs() < 1e-10,
        "A's fused score should be 2/61, got {}",
        fused[0].fused_score
    );

    let expected_b = 1.0 / 62.0 + 1.0 / 62.0;
    assert!(
        (fused[1].fused_score - expected_b).abs() < 1e-10,
        "B's fused score should be 2/62, got {}",
        fused[1].fused_score
    );

    assert_eq!(fused[2].chunk.id, "C");
    assert_eq!(fused[2].chunk.store_id, "s1");
    assert_eq!(fused[3].chunk.id, "D");
    assert_eq!(fused[3].chunk.store_id, "s2");

    let expected_cd = 1.0 / 63.0;
    assert!(
        (fused[2].fused_score - expected_cd).abs() < 1e-10,
        "C's fused score should be 1/63, got {}",
        fused[2].fused_score
    );
    assert!(
        (fused[3].fused_score - expected_cd).abs() < 1e-10,
        "D's fused score should be 1/63, got {}",
        fused[3].fused_score
    );
}

#[test]
fn rrf_fuse_global_tiebreak_orders_by_store_id_then_chunk_id() {
    let chunk_store2_a = make_chunk(
        "A",
        "doc-1",
        "store-2",
        "text",
        vec![],
        "file:///1.md",
        vec![1.0],
    );
    let chunk_store1_b = make_chunk(
        "B",
        "doc-2",
        "store-1",
        "text",
        vec![],
        "file:///2.md",
        vec![1.0],
    );
    let chunk_store1_d = make_chunk(
        "D",
        "doc-3",
        "store-1",
        "text",
        vec![],
        "file:///3.md",
        vec![1.0],
    );
    let chunk_store1_c = make_chunk(
        "C",
        "doc-4",
        "store-1",
        "text",
        vec![],
        "file:///4.md",
        vec![1.0],
    );

    let dense = vec![
        make_search_result(chunk_store2_a.clone(), 0.9),
        make_search_result(chunk_store1_d.clone(), 0.5),
    ];

    let bm25 = vec![
        make_search_result(chunk_store1_b.clone(), 9.0),
        make_search_result(chunk_store1_c.clone(), 4.0),
    ];

    let fused = rrf_fuse_global(&dense, &bm25, 60.0);
    assert_eq!(fused.len(), 4);

    assert_eq!(
        (fused[0].chunk.store_id.as_str(), fused[0].chunk.id.as_str()),
        ("store-1", "B")
    );
    assert_eq!(
        (fused[1].chunk.store_id.as_str(), fused[1].chunk.id.as_str()),
        ("store-2", "A")
    );

    assert_eq!(
        (fused[2].chunk.store_id.as_str(), fused[2].chunk.id.as_str()),
        ("store-1", "C")
    );
    assert_eq!(
        (fused[3].chunk.store_id.as_str(), fused[3].chunk.id.as_str()),
        ("store-1", "D")
    );

    let expected_group1 = 1.0 / 61.0;
    assert!((fused[0].fused_score - expected_group1).abs() < 1e-10);
    assert!((fused[1].fused_score - expected_group1).abs() < 1e-10);

    let expected_group2 = 1.0 / 62.0;
    assert!((fused[2].fused_score - expected_group2).abs() < 1e-10);
    assert!((fused[3].fused_score - expected_group2).abs() < 1e-10);
}

#[test]
fn pool_leg_results_orders_by_score_desc_then_store_id_then_chunk_id() {
    let high = make_search_result(
        make_chunk(
            "m",
            "doc-1",
            "store-1",
            "text",
            vec![],
            "file:///m.md",
            vec![1.0],
        ),
        0.9,
    );

    let tie_a_store2 = make_search_result(
        make_chunk(
            "b",
            "doc-2",
            "store-2",
            "text",
            vec![],
            "file:///b.md",
            vec![1.0],
        ),
        0.5,
    );
    let tie_a_store1 = make_search_result(
        make_chunk(
            "c",
            "doc-3",
            "store-1",
            "text",
            vec![],
            "file:///c.md",
            vec![1.0],
        ),
        0.5,
    );

    let tie_b_store2 = make_search_result(
        make_chunk(
            "same-id",
            "doc-4",
            "store-2",
            "text",
            vec![],
            "file:///s2.md",
            vec![1.0],
        ),
        0.3,
    );
    let tie_b_store1 = make_search_result(
        make_chunk(
            "same-id",
            "doc-5",
            "store-1",
            "text",
            vec![],
            "file:///s1.md",
            vec![1.0],
        ),
        0.3,
    );

    let input = vec![
        tie_a_store2.clone(),
        high.clone(),
        tie_b_store1.clone(),
        tie_a_store1.clone(),
        tie_b_store2.clone(),
    ];

    let pooled = pool_leg_results(input);

    let actual: Vec<(&str, &str)> = pooled
        .iter()
        .map(|r| (r.chunk.store_id.as_str(), r.chunk.id.as_str()))
        .collect();

    assert_eq!(
        actual,
        vec![
            ("store-1", "m"),
            ("store-1", "c"),
            ("store-2", "b"),
            ("store-1", "same-id"),
            ("store-2", "same-id"),
        ]
    );
}

#[test]
fn retain_own_chunks_drops_results_stamped_with_another_store_id() {
    let handle = StoreHandle {
        id: "store-A".to_string(),
        name: "Store A".to_string(),
    };

    let mine_first = make_search_result(
        make_chunk("a", "d1", "store-A", "t", vec![], "file:///a.md", vec![1.0]),
        0.9,
    );
    let foreign = make_search_result(
        make_chunk("x", "d2", "store-B", "t", vec![], "file:///x.md", vec![1.0]),
        0.8,
    );
    let mine_last = make_search_result(
        make_chunk("b", "d3", "store-A", "t", vec![], "file:///b.md", vec![1.0]),
        0.7,
    );

    let kept = retain_own_chunks(vec![mine_first, foreign, mine_last], &handle);

    assert_eq!(
        kept.iter().map(|r| r.chunk.id.as_str()).collect::<Vec<_>>(),
        vec!["a", "b"]
    );
    assert!(kept.iter().all(|r| r.chunk.store_id == "store-A"));
}

#[test]
fn retain_own_chunks_drops_every_foreign_result() {
    let handle = StoreHandle {
        id: "store-A".to_string(),
        name: "Store A".to_string(),
    };
    let foreign = make_search_result(
        make_chunk("x", "d1", "store-B", "t", vec![], "file:///x.md", vec![1.0]),
        0.8,
    );

    assert!(retain_own_chunks(vec![foreign], &handle).is_empty());
}

#[test]
fn query_multi_store_true_global_rrf_demotes_weak_stores_rank0_chunk() {
    let r0 = make_chunk(
        "r0",
        "doc-r0",
        "rel",
        "text r0",
        vec![],
        "file:///r0.md",
        vec![1.0],
    );
    let r1 = make_chunk(
        "r1",
        "doc-r1",
        "rel",
        "text r1",
        vec![],
        "file:///r1.md",
        vec![1.0],
    );
    let r2 = make_chunk(
        "r2",
        "doc-r2",
        "rel",
        "text r2",
        vec![],
        "file:///r2.md",
        vec![1.0],
    );

    let w0 = make_chunk(
        "w0",
        "doc-w0",
        "weak",
        "text w0",
        vec![],
        "file:///w0.md",
        vec![1.0],
    );

    let rel_dense = vec![
        make_search_result(r0.clone(), 0.99),
        make_search_result(r1.clone(), 0.90),
        make_search_result(r2.clone(), 0.80),
    ];
    let rel_bm25 = vec![
        make_search_result(r0.clone(), 10.0),
        make_search_result(r1.clone(), 8.0),
        make_search_result(r2.clone(), 6.0),
    ];
    let weak_dense = vec![make_search_result(w0.clone(), 0.50)];
    let weak_bm25 = vec![make_search_result(w0.clone(), 3.0)];

    let rel_fused_old = rrf_fuse_global(&rel_dense, &rel_bm25, 60.0);
    let weak_fused_old = rrf_fuse_global(&weak_dense, &weak_bm25, 60.0);

    let rel_rank0_old = rel_fused_old.iter().find(|e| e.chunk.id == "r0").unwrap();
    let weak_rank0_old = weak_fused_old.iter().find(|e| e.chunk.id == "w0").unwrap();

    let expected_rank0_score = 2.0 / 61.0;
    assert!(
        (rel_rank0_old.fused_score - expected_rank0_score).abs() < 1e-10,
        "rel's rank-0 chunk should score exactly 2/61 under the old per-store topology, got {}",
        rel_rank0_old.fused_score
    );
    assert!(
        (weak_rank0_old.fused_score - expected_rank0_score).abs() < 1e-10,
        "weak's rank-0 chunk should score exactly 2/61 under the old per-store topology \
             (THIS IS THE BUG: a mediocre chunk alone in its store ties the genuinely-best \
             chunk from a store with real competition), got {}",
        weak_rank0_old.fused_score
    );

    let pooled_dense = pool_leg_results(vec![
        make_search_result(r0.clone(), 0.99),
        make_search_result(r1.clone(), 0.90),
        make_search_result(r2.clone(), 0.80),
        make_search_result(w0.clone(), 0.50),
    ]);
    let pooled_bm25 = pool_leg_results(vec![
        make_search_result(r0.clone(), 10.0),
        make_search_result(r1.clone(), 8.0),
        make_search_result(r2.clone(), 6.0),
        make_search_result(w0.clone(), 3.0),
    ]);

    let fused_new = rrf_fuse_global(&pooled_dense, &pooled_bm25, 60.0);
    assert_eq!(fused_new.len(), 4);

    assert_eq!(
        fused_new[3].chunk.id,
        "w0",
        "weak's chunk must be demoted to last place under true global RRF, got order {:?}",
        fused_new
            .iter()
            .map(|e| e.chunk.id.as_str())
            .collect::<Vec<_>>()
    );

    let r0_entry = fused_new.iter().find(|e| e.chunk.id == "r0").unwrap();
    let r1_entry = fused_new.iter().find(|e| e.chunk.id == "r1").unwrap();
    let r2_entry = fused_new.iter().find(|e| e.chunk.id == "r2").unwrap();
    let w0_entry = fused_new.iter().find(|e| e.chunk.id == "w0").unwrap();

    assert!(
        (r0_entry.fused_score - 2.0 / 61.0).abs() < 1e-10,
        "r0 should be 2/61, got {}",
        r0_entry.fused_score
    );
    assert!(
        (r1_entry.fused_score - 2.0 / 62.0).abs() < 1e-10,
        "r1 should be 2/62, got {}",
        r1_entry.fused_score
    );
    assert!(
        (r2_entry.fused_score - 2.0 / 63.0).abs() < 1e-10,
        "r2 should be 2/63, got {}",
        r2_entry.fused_score
    );
    assert!(
        (w0_entry.fused_score - 2.0 / 64.0).abs() < 1e-10,
        "w0 should be 2/64 — correctly demoted behind all three rel chunks, got {}",
        w0_entry.fused_score
    );
}

#[test]
fn shape_citation_carries_correct_fields() {
    let chunk = make_chunk(
        "chunk-1",
        "doc-1",
        "store-A",
        "The quick brown fox",
        vec!["Overview".to_string(), "Details".to_string()],
        "file:///docs/guide.md",
        vec![0.5, 0.5],
    );
    let entry = FusedChunkEntry {
        chunk,
        fused_score: bits(0.0327),
        dense_score: Some(bits(0.92)),
        bm25_score: Some(bits(8.5)),
    };

    let citation = shape_citation(entry, "store-A".to_string(), "my-store".to_string());

    assert_eq!(citation.chunk_id, "chunk-1");
    assert_eq!(citation.resource_id, "doc-1");
    assert_eq!(citation.store.id, "store-A");
    assert_eq!(citation.store.name, "my-store");
    assert_eq!(citation.uri, "file:///docs/guide.md");
    assert_eq!(
        citation.heading_path,
        vec!["Overview".to_string(), "Details".to_string()]
    );
    assert_eq!(citation.location.span.start, 0);
    assert_eq!(citation.location.span.end, "The quick brown fox".len());
    assert!(
        citation.location.window_block_seqs.is_empty(),
        "non-window chunk should have empty window_block_seqs"
    );
    assert_eq!(citation.block.seq, 0);
    assert_eq!(citation.chunk_position.seq_in_block, 0);
    assert_eq!(citation.snippet, "The quick brown fox");
    assert!((f64::from_bits(citation.score.fused) - 0.0327).abs() < 1e-10);
    assert_eq!(citation.score.dense, Some(bits(0.92)));
    assert_eq!(citation.score.bm25, Some(bits(8.5)));
    assert_eq!(citation.provenance.fetched_at, "2026-06-10T12:00:00Z");
    assert_eq!(citation.provenance.content_hash, "abc123");
}

#[test]
fn shape_citation_carries_block_and_window_fields() {
    let mut chunk = make_chunk(
        "chunk-2",
        "doc-1",
        "store-A",
        "window chunk text",
        vec![],
        "file:///thread.md",
        vec![0.1, 0.2],
    );
    chunk.block_seq = 5;
    chunk.seq_in_block = 2;
    chunk.block_kind = Some("message".to_string());
    chunk.window_block_seqs = vec![3, 4, 5];

    let entry = FusedChunkEntry {
        chunk,
        fused_score: bits(0.01),
        dense_score: None,
        bm25_score: Some(bits(1.0)),
    };

    let citation = shape_citation(entry, "store-A".to_string(), "my-store".to_string());

    assert_eq!(citation.block.seq, 5);
    assert_eq!(citation.block.kind, Some("message".to_string()));
    assert_eq!(citation.chunk_position.seq_in_block, 2);
    assert_eq!(citation.location.window_block_seqs, vec![3, 4, 5]);
}

#[test]
fn shape_citation_single_leg_scores_preserved() {
    let chunk = make_chunk("c1", "d1", "s1", "text", vec![], "file:///a.md", vec![1.0]);
    let entry = FusedChunkEntry {
        chunk,
        fused_score: bits(1.0 / 61.0),
        dense_score: Some(bits(0.88)),
        bm25_score: None,
    };

    let citation = shape_citation(entry, "s1".to_string(), "store-one".to_string());
    assert_eq!(citation.score.dense, Some(bits(0.88)));
    assert_eq!(citation.score.bm25, None);
}

#[test]
fn shape_citation_carries_metadata() {
    let mut chunk = make_chunk("c1", "d1", "s1", "text", vec![], "file:///a.md", vec![1.0]);
    chunk.metadata = Metadata::Document(DocumentMetadata {
        dublin_core: DublinCoreMetadata {
            title: Some("My Title".to_string()),
            creator: vec!["Bob".to_string()],
            date: Some("2026-03-01".to_string()),
            ..Default::default()
        },
        ..Default::default()
    });
    let entry = FusedChunkEntry {
        chunk,
        fused_score: bits(0.5),
        dense_score: None,
        bm25_score: Some(bits(4.0)),
    };
    let citation = shape_citation(entry, "s1".to_string(), "store-one".to_string());
    assert_eq!(citation.metadata.title(), Some("My Title"));
    assert_eq!(
        citation.metadata.dublin_core().creator,
        vec!["Bob".to_string()]
    );
    assert_eq!(
        citation.metadata.dublin_core().date.as_deref(),
        Some("2026-03-01")
    );
}

#[test]
fn rerank_noop_preserves_order() {
    let chunk = make_chunk("c1", "d1", "s1", "text", vec![], "file:///a.md", vec![1.0]);
    let entries = vec![
        FusedChunkEntry {
            chunk: chunk.clone(),
            fused_score: bits(0.9),
            dense_score: Some(bits(0.9)),
            bm25_score: None,
        },
        FusedChunkEntry {
            chunk: {
                let mut c = chunk.clone();
                c.id = "c2".to_string();
                c
            },
            fused_score: bits(0.5),
            dense_score: None,
            bm25_score: Some(bits(5.0)),
        },
    ];
    let reranked = rerank_noop(entries.clone());
    assert_eq!(reranked.len(), entries.len());
    assert_eq!(reranked[0].chunk.id, "c1");
    assert_eq!(reranked[1].chunk.id, "c2");
}

#[test]
fn rerank_noop_empty() {
    let reranked = rerank_noop(vec![]);
    assert!(reranked.is_empty());
}

#[test]
fn default_constants_match_spec() {
    assert_eq!(RRF_K as f64, 60.0, "RRF_K should be 60");
    assert_eq!(DEFAULT_LEG_K, 50, "DEFAULT_LEG_K should be 50");
    assert_eq!(DEFAULT_TOP_N, 10, "DEFAULT_TOP_N should be 10");
}

fn handle(id: &str, name: &str) -> StoreHandle {
    StoreHandle {
        id: id.to_string(),
        name: name.to_string(),
    }
}

fn simple(id: &str, store: &str, score: f32) -> SearchResult {
    make_search_result(
        make_chunk(id, "d", store, "t", vec![], "file:///x.md", vec![]),
        score,
    )
}

#[test]
fn a_query_over_two_stores_attributes_each_result() {
    let stores = vec![handle("a", "Store A"), handle("b", "Store B")];
    let dense = vec![
        vec![simple("same", "a", 0.9), simple("alone", "a", 0.2)],
        vec![simple("same", "b", 0.8), simple("stray", "c", 1.0)],
    ];
    let bm25 = vec![vec![simple("same", "a", 3.0)], vec![simple("same", "b", 7.0)]];
    let candidates = SearchOrchestrator::candidates(&stores, dense, bm25);
    assert_eq!(candidates.len(), 3);
    let scores: Vec<u64> = candidates.iter().map(|c| fused_score(c, 60.0)).collect();
    let response = SearchOrchestrator::query(&stores, candidates, &scores, 2);
    assert_eq!(response.total_candidates, 3);
    let got: Vec<(&str, &str, &str)> = response
        .citations
        .iter()
        .map(|c| {
            (
                c.chunk_id.as_str(),
                c.store.id.as_str(),
                c.store.name.as_str(),
            )
        })
        .collect();
    assert_eq!(
        got,
        vec![("same", "a", "Store A"), ("same", "b", "Store B")]
    );
}

#[test]
fn ranking_follows_floats_of_any_sign() {
    let scores = [0.0f32, -0.0, 1.5, -1.5, 1e-40, -1e-40, f32::INFINITY, f32::NEG_INFINITY, 3.0e38];
    let results: Vec<SearchResult> = scores
        .iter()
        .enumerate()
        .map(|(i, s)| simple(&format!("{i}"), "s", *s))
        .collect();
    let pooled = pool_leg_results(results);
    let got: Vec<f64> = pooled.iter().map(|r| f64::from_bits(r.score)).collect();
    for pair in got.windows(2) {
        assert!(pair[0] >= pair[1]);
    }
    let zeros: Vec<&str> = pooled
        .iter()
        .filter(|r| f64::from_bits(r.score) == 0.0)
        .map(|r| r.chunk.id.as_str())
        .collect();
    assert_eq!(zeros, vec!["0", "1"]);
}

#[test]
fn an_entry_that_occurs_twice_in_a_leg_keeps_both_ranks() {
    let candidates = group_legs(
        vec![simple("x", "s", 0.9), simple("y", "s", 0.8), simple("x", "s", 0.7)],
        vec![simple("y", "s", 2.0)],
    );
    assert_eq!(candidates.len(), 2);
    assert_eq!(candidates[0].dense_ranks, vec![0, 2]);
    assert_eq!(candidates[0].dense_score, Some(bits(0.7f32 as f64)));
    assert_eq!(candidates[1].dense_ranks, vec![1]);
    assert_eq!(candidates[1].bm25_ranks, vec![0]);
}

#[test]
fn limits_have_defaults() {
    let mut request = QueryRequest {
        query: "q".to_string(),
        leg_k: None,
        top_n: None,
        filters: vec![],
    };
    assert_eq!(request.limits(), (50, 10));
    request.leg_k = Some(3);
    request.top_n = Some(0);
    assert_eq!(request.limits(), (3, 0));
}

#[test]
fn queries_are_embedded_as_one_chunk() {
    let doc = SearchOrchestrator::embed_query("what is it");
    assert_eq!(doc.document_context, "what is it");
    assert_eq!(doc.chunks, vec!["what is it"]);
    assert_eq!(
        SearchOrchestrator::query_vector(vec![vec![vec![1, 2], vec![3]], vec![]]),
        vec![1, 2]
    );
    assert!(SearchOrchestrator::query_vector(vec![vec![]]).is_empty());
    assert!(SearchOrchestrator::query_vector(vec![]).is_empty());
}
