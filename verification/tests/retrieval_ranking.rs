use auto_llm_wiki::claim::{Claim, MemoryTier};
use auto_llm_wiki::ids::ClaimId;
use auto_llm_wiki::retrieval::{
    rank_by_graph_hint, rank_by_overlap, rank_in_order, rank_scored, tokenize, Ratio,
};

#[test]
fn tokenize_lowercases_and_splits_on_non_alphanumerics() {
    assert_eq!(tokenize("Redis TTL, 3600s!"), vec!["redis", "ttl", "3600s"]);
    assert_eq!(tokenize("  "), Vec::<String>::new());
    assert_eq!(tokenize("Ünïcode-Wörter"), vec!["ünïcode", "wörter"]);
}

#[test]
fn overlap_ranking_prefers_higher_share_of_query_words() {
    let strong = Claim::new(ClaimId::new(), "Redis TTL", MemoryTier::Semantic);
    let weak = Claim::new(ClaimId::new(), "Redis is used as a cache", MemoryTier::Semantic);
    let none = Claim::new(ClaimId::new(), "Postgres vacuum", MemoryTier::Semantic);
    let ranked = rank_by_overlap(&vec![weak.clone(), none, strong.clone()], "redis ttl");
    assert_eq!(ranked.len(), 2);
    assert_eq!(ranked[0].claim_id, strong.id);
    assert_eq!(ranked[0].rank, 1);
    assert_eq!(ranked[1].claim_id, weak.id);
    assert_eq!(ranked[1].rank, 2);
}

#[test]
fn graph_hint_ranking_prefers_earlier_query_words() {
    let a = Claim::new(ClaimId::new(), "cache warmup", MemoryTier::Semantic);
    let b = Claim::new(ClaimId::new(), "Redis notes", MemoryTier::Semantic);
    let c = Claim::new(ClaimId::new(), "nothing here", MemoryTier::Semantic);
    let ranked = rank_by_graph_hint(&vec![a.clone(), b.clone(), c], "redis cache");
    assert_eq!(ranked.len(), 2);
    assert_eq!(ranked[0].claim_id, b.id);
    assert_eq!(ranked[1].claim_id, a.id);
}

#[test]
fn ranking_is_stable_for_equal_scores() {
    let ids: Vec<ClaimId> = (0..4).map(|n| ClaimId(n as u128)).collect();
    let scored = vec![
        (ids[0], Ratio { num: 1, den: 2 }),
        (ids[1], Ratio { num: 2, den: 4 }),
        (ids[2], Ratio { num: 0, den: 1 }),
        (ids[3], Ratio { num: 3, den: 4 }),
    ];
    let ranked = rank_scored(&scored);
    let order: Vec<ClaimId> = ranked.iter().map(|r| r.claim_id).collect();
    assert_eq!(order, vec![ids[3], ids[0], ids[1]]);
    assert_eq!(ranked.iter().map(|r| r.rank).collect::<Vec<_>>(), vec![1, 2, 3]);
}

#[test]
fn keyword_hits_are_ranked_in_order() {
    let a = ClaimId::new();
    let b = ClaimId::new();
    let ranked = rank_in_order(&vec![a, b]);
    assert_eq!(ranked[0].claim_id, a);
    assert_eq!(ranked[0].rank, 1);
    assert_eq!(ranked[1].claim_id, b);
    assert_eq!(ranked[1].rank, 2);
}
