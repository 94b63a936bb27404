use auto_llm_wiki::claim::{Claim, MemoryTier, Score, UNIT_SCORE_BITS};
use auto_llm_wiki::ids::{ClaimId, EventId};
use auto_llm_wiki::retrieval::{fusion_ranks, RankedClaim};

fn score(value: f64) -> Score {
    Score { bits: value.to_bits() }
}

#[test]
fn superseding_claim_marks_old_claim_stale() {
    let old_id = ClaimId::new();
    let old_claim = Claim::new(old_id, "Redis default TTL is 3600 seconds", MemoryTier::Semantic);

    let replacement = old_claim.superseded_by(
        ClaimId::new(),
        "Redis default TTL depends on key configuration",
        score(0.91),
        score(0.88),
    );

    assert!(replacement.previous.stale);
    assert_eq!(replacement.previous.id, old_id);
    assert_eq!(replacement.current.supersedes, Some(old_id));
    assert_eq!(replacement.current.tier, MemoryTier::Semantic);
}

#[test]
fn reciprocal_rank_fusion_combines_retrieval_paths() {
    let a = ClaimId::new();
    let b = ClaimId::new();

    let groups = fusion_ranks(
        &vec![RankedClaim::new(a, 1), RankedClaim::new(b, 2)],
        &vec![RankedClaim::new(b, 1), RankedClaim::new(a, 3)],
        &vec![RankedClaim::new(a, 2)],
    );

    let fused: Vec<(ClaimId, f64)> = groups
        .iter()
        .map(|g| (g.claim_id, g.values.iter().map(|r| 1.0 / (60.0 + *r as f64)).sum()))
        .collect();
    assert_eq!(fused.len(), 2);
    assert_eq!(fused[0].0, a);
    assert!(fused[0].1 > fused[1].1);
    assert_eq!(groups[0].values, vec![1, 3, 2]);
    assert_eq!(groups[1].values, vec![2, 1]);
}

#[test]
fn new_claim_has_full_scores_and_no_history() {
    let id = ClaimId::new();
    let claim = Claim::new(id, "Redis is used as a cache", MemoryTier::Episodic);
    assert_eq!(claim.id, id);
    assert_eq!(claim.text, "Redis is used as a cache");
    assert_eq!(claim.confidence.bits, UNIT_SCORE_BITS);
    assert_eq!(f64::from_bits(claim.quality_score.bits), 1.0);
    assert_eq!(claim.supersedes, None);
    assert!(!claim.stale);
    assert_eq!(claim.access_count, 0);
    assert_eq!(claim.created_at, claim.updated_at);
}

#[test]
fn supersession_keeps_old_text_and_stamps_both_claims_alike() {
    let old = Claim::new(ClaimId::new(), "old text", MemoryTier::Procedural);
    let new_id = ClaimId::new();
    let r = old.superseded_by(new_id, "new text", score(0.5), score(0.25));
    assert_eq!(r.previous.text, "old text");
    assert_eq!(r.current.text, "new text");
    assert_eq!(r.current.id, new_id);
    assert_eq!(f64::from_bits(r.current.confidence.bits), 0.5);
    assert_eq!(f64::from_bits(r.current.quality_score.bits), 0.25);
    assert!(!r.current.stale);
    assert_eq!(r.previous.updated_at, r.current.updated_at);
    assert_eq!(r.current.tier, MemoryTier::Procedural);
}

#[test]
fn claim_id_text_is_hyphenated_lowercase_and_reads_back() {
    let id = ClaimId(0x0123_4567_89ab_cdef_0011_2233_4455_6677);
    assert_eq!(id.to_string(), "01234567-89ab-cdef-0011-223344556677");
    assert_eq!(ClaimId::parse("01234567-89ab-cdef-0011-223344556677").unwrap(), id);
    let fresh = ClaimId::new();
    assert_eq!(ClaimId::parse(&fresh.to_string()).unwrap(), fresh);
    let event = EventId::new();
    assert_eq!(EventId::parse(&event.to_string()).unwrap(), event);
}

#[test]
fn claim_id_parse_rejects_garbage() {
    let err = ClaimId::parse("not-a-uuid").unwrap_err();
    assert_eq!(err.text, "not-a-uuid");
    assert!(ClaimId::parse("").is_err());
}

#[test]
fn claim_id_parse_accepts_other_uuid_forms() {
    let id = ClaimId(0x0123_4567_89ab_cdef_0011_2233_4455_6677);
    assert_eq!(ClaimId::parse("0123456789abcdef0011223344556677").unwrap(), id);
    assert_eq!(ClaimId::parse("{01234567-89AB-CDEF-0011-223344556677}").unwrap(), id);
}

#[test]
fn fresh_ids_are_version_four_uuids() {
    for _ in 0..8 {
        let claim = ClaimId::new();
        let event = EventId::new();
        for v in [claim.0, event.0] {
            assert_eq!((v >> 76) & 0xf, 4);
            assert_eq!((v >> 62) & 0x3, 2);
        }
        assert_eq!(claim.to_string().chars().nth(14), Some('4'));
    }
}
