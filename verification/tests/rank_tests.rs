use files_index::dto::FileDTO;
use files_index::rank::{rank_hits, to_scored_hits, top_ranked, ScoredHit};
use files_index::RESULT_LIMIT;

fn doc(id: &str) -> FileDTO {
    FileDTO {
        file_id: id.to_string(),
        name: format!("{}.txt", id),
        file_path: format!("/files/{}.txt", id),
        date_modified: 0,
        metadata: String::new(),
        popularity: None,
    }
}

fn keys_of(hits: &[ScoredHit]) -> Vec<u64> {
    hits.iter().map(|h| h.key).collect()
}

fn ids_of(hits: &[ScoredHit]) -> Vec<String> {
    hits.iter().map(|h| h.doc.file_id.clone()).collect()
}

#[test]
fn ranking_orders_by_key_descending() {
    let scored = vec![(10u64, doc("low")), (30u64, doc("high")), (20u64, doc("mid"))];
    let ranked = rank_hits(to_scored_hits(scored));
    assert_eq!(keys_of(&ranked), vec![30, 20, 10]);
    assert_eq!(ids_of(&ranked), vec!["high", "mid", "low"]);
}

#[test]
fn higher_popularity_never_ranks_later() {
    // Two otherwise-identical matches: the one with the larger adjusted
    // score key stands strictly earlier.
    let scored = vec![(50u64, doc("less_popular")), (70u64, doc("more_popular"))];
    let ranked = rank_hits(to_scored_hits(scored));
    assert_eq!(ids_of(&ranked), vec!["more_popular", "less_popular"]);
}

#[test]
fn raising_one_score_never_demotes_the_hit() {
    // The same matches ranked twice, once with a larger adjusted score
    // key on one hit: that hit's rank only improves.
    let base = vec![(80u64, doc("a")), (40u64, doc("b")), (60u64, doc("c"))];
    let ranked_before = rank_hits(to_scored_hits(base));
    let raised = vec![(80u64, doc("a")), (75u64, doc("b")), (60u64, doc("c"))];
    let ranked_after = rank_hits(to_scored_hits(raised));
    let rank_of = |hits: &[ScoredHit]| {
        hits.iter().position(|h| h.doc.file_id == "b").expect("hit must be present")
    };
    assert_eq!(rank_of(&ranked_before), 2);
    assert_eq!(rank_of(&ranked_after), 1);
    assert!(rank_of(&ranked_after) <= rank_of(&ranked_before));
}

#[test]
fn neutral_adjustment_keeps_base_order() {
    // When every popularity signal is neutral the adjusted keys equal the
    // base relevance keys, and re-ranking returns the base order exactly.
    let scored = vec![(90u64, doc("first")), (60u64, doc("second")), (30u64, doc("third"))];
    let ranked = rank_hits(to_scored_hits(scored));
    assert_eq!(ids_of(&ranked), vec!["first", "second", "third"]);
}

#[test]
fn equal_keys_break_ties_by_base_position() {
    let scored = vec![(40u64, doc("a")), (40u64, doc("b")), (50u64, doc("c")), (40u64, doc("d"))];
    let ranked = rank_hits(to_scored_hits(scored));
    assert_eq!(ids_of(&ranked), vec!["c", "a", "b", "d"]);
}

#[test]
fn results_are_capped_at_the_limit() {
    assert_eq!(RESULT_LIMIT, 10);
    let mut scored: Vec<(u64, FileDTO)> = Vec::new();
    for i in 0..25u64 {
        scored.push((i, doc(&format!("f{}", i))));
    }
    let top = top_ranked(to_scored_hits(scored), RESULT_LIMIT);
    assert_eq!(top.len(), 10);
    assert_eq!(keys_of(&top), vec![24, 23, 22, 21, 20, 19, 18, 17, 16, 15]);
}

#[test]
fn short_result_lists_are_returned_whole() {
    let scored = vec![(5u64, doc("only"))];
    let top = top_ranked(to_scored_hits(scored), RESULT_LIMIT);
    assert_eq!(top.len(), 1);
    assert_eq!(top[0].doc.file_id, "only");
}
