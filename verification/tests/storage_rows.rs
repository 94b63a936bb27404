use auto_llm_wiki::claim::{format_timestamp, parse_timestamp, Claim, MemoryTier, Score, Timestamp};
use auto_llm_wiki::codec::{decode_claim_row, encode_claim_row, ClaimRow, RowError};
use auto_llm_wiki::config::RuntimeConfig;
use auto_llm_wiki::engine::{embedding_run, query_outcomes, PathOutcome};
use auto_llm_wiki::ids::ClaimId;
use auto_llm_wiki::retrieval::{claim_position, fused_picks, fusion_paths, RankedClaim};

const ID: &str = "550e8400-e29b-41d4-a716-446655440000";

fn row() -> ClaimRow {
    ClaimRow {
        id: ID.to_owned(),
        text: "Redis default TTL is 3600 seconds".to_owned(),
        tier: "procedural".to_owned(),
        confidence: Score { bits: 0.9f64.to_bits() },
        quality_score: Score { bits: 0.5f64.to_bits() },
        supersedes: None,
        stale: 1,
        access_count: 3,
        created_at: "2024-05-01T12:00:00+00:00".to_owned(),
        updated_at: "2024-05-01T14:00:00.250+02:00".to_owned(),
    }
}

#[test]
fn timestamps_read_and_write_rfc3339() {
    let t = parse_timestamp("2024-05-01T12:00:00+00:00").expect("valid time");
    assert_eq!(t, Timestamp { seconds: 1714564800, nanos: 0 });
    let shifted = parse_timestamp("2024-05-01T14:00:00.250+02:00").expect("valid time");
    assert_eq!(shifted, Timestamp { seconds: 1714564800, nanos: 250_000_000 });
    assert!(parse_timestamp("yesterday").is_none());
    assert_eq!(format_timestamp(t).as_deref(), Some("2024-05-01T12:00:00+00:00"));
    assert_eq!(parse_timestamp(&format_timestamp(shifted).unwrap()), Some(shifted));
    assert!(format_timestamp(Timestamp { seconds: i64::MAX, nanos: 0 }).is_none());
}

#[test]
fn claim_rows_read_back_into_claims() {
    let claim = decode_claim_row(&row()).ok().expect("readable row");
    assert_eq!(claim.id.to_string(), ID);
    assert_eq!(claim.tier, MemoryTier::Procedural);
    assert_eq!(f64::from_bits(claim.confidence.bits), 0.9);
    assert!(claim.stale);
    assert_eq!(claim.access_count, 3);
    assert_eq!(claim.supersedes, None);
    assert_eq!(claim.created_at, Timestamp { seconds: 1714564800, nanos: 0 });
    assert_eq!(claim.updated_at, Timestamp { seconds: 1714564800, nanos: 250_000_000 });

    let mut other = row();
    other.tier = "unknown".to_owned();
    other.supersedes = Some(ID.to_owned());
    let claim = decode_claim_row(&other).ok().expect("readable row");
    assert_eq!(claim.tier, MemoryTier::Semantic);
    assert_eq!(claim.supersedes, ClaimId::parse(ID).ok());
}

#[test]
fn claim_rows_report_their_first_unreadable_column() {
    let mut bad = row();
    bad.supersedes = Some("nope".to_owned());
    bad.created_at = "later".to_owned();
    assert!(matches!(decode_claim_row(&bad), Err(RowError::InvalidId(t)) if t == "nope"));
    bad.supersedes = None;
    assert!(matches!(decode_claim_row(&bad), Err(RowError::InvalidTime(t)) if t == "later"));
    bad.id = "x".to_owned();
    assert!(matches!(decode_claim_row(&bad), Err(RowError::InvalidId(t)) if t == "x"));
}

#[test]
fn uuid_texts_in_every_written_form_parse() {
    let want = ClaimId::parse(ID).ok().unwrap();
    for text in [
        "550e8400e29b41d4a716446655440000".to_owned(),
        format!("{{{ID}}}"),
        format!("urn:uuid:{ID}"),
    ] {
        assert_eq!(ClaimId::parse(&text).ok(), Some(want));
    }
}

#[test]
fn fusion_paths_fill_in_empty_rankings() {
    let a = Claim::new(ClaimId(1), "Redis TTL policy", MemoryTier::Semantic);
    let b = Claim::new(ClaimId(2), "cache warmup", MemoryTier::Semantic);
    let claims = vec![a.clone(), b.clone()];
    let given = vec![RankedClaim::new(ClaimId(2), 1)];
    let (vector, graph) = fusion_paths(&claims, &given, &vec![], "redis ttl");
    assert_eq!(vector, given);
    assert_eq!(graph, vec![RankedClaim::new(ClaimId(1), 1)]);
    assert_eq!(claim_position(&claims, ClaimId(2)), Some(1));
    assert_eq!(claim_position(&claims, ClaimId(9)), None);
}

#[test]
fn embedding_attempts_record_runs() {
    let id = ClaimId::parse(ID).ok().unwrap();
    let ok = embedding_run(id, None);
    assert_eq!(ok.provider_name, "vector-openai-compatible");
    assert_eq!(ok.operation, "sync-index");
    assert_eq!(ok.target_ref, ID);
    assert_eq!(ok.status, "ok");
    assert_eq!(ok.embedding_status, "ready");
    let failed = embedding_run(id, Some("timeout".to_owned()));
    assert_eq!(failed.status, "degraded");
    assert_eq!(failed.embedding_status, "failed");
    assert_eq!(failed.error_message.as_deref(), Some("timeout"));
}

#[test]
fn claim_rows_round_trip() {
    let earlier = Claim::new(ClaimId::new(), "Redis default TTL is 3600 seconds", MemoryTier::Working);
    let replacement =
        earlier.superseded_by(ClaimId::new(), "Redis TTL depends on key configuration", Score { bits: 0.8f64.to_bits() }, Score { bits: 0.7f64.to_bits() });
    for claim in [earlier, replacement.previous, replacement.current] {
        let row = encode_claim_row(&claim).expect("writable times");
        let back = decode_claim_row(&row).ok().expect("row reads back");
        assert_eq!(back.id, claim.id);
        assert_eq!(back.text, claim.text);
        assert_eq!(back.tier, claim.tier);
        assert_eq!(back.confidence, claim.confidence);
        assert_eq!(back.quality_score, claim.quality_score);
        assert_eq!(back.supersedes, claim.supersedes);
        assert_eq!(back.stale, claim.stale);
        assert_eq!(back.access_count, claim.access_count);
        assert_eq!(back.created_at, claim.created_at);
        assert_eq!(back.updated_at, claim.updated_at);
    }
    let mut far = Claim::new(ClaimId(7), "x", MemoryTier::Working);
    far.updated_at = Timestamp { seconds: i64::MAX, nanos: 0 };
    assert!(encode_claim_row(&far).is_none());
}

#[test]
fn uuid_texts_of_other_lengths_are_refused() {
    assert!(ClaimId::parse("not-a-uuid").is_err());
    assert!(ClaimId::parse("").is_err());
}

#[test]
fn query_path_outcomes() {
    let config = RuntimeConfig::default();
    assert_eq!(query_outcomes(&config, None), (PathOutcome::Served, PathOutcome::Disabled, PathOutcome::Served));
    let mut enabled = RuntimeConfig::vector_enabled_for_tests("m");
    enabled.retrieval.graph.enabled = false;
    assert_eq!(
        query_outcomes(&enabled, Some(false)),
        (PathOutcome::Served, PathOutcome::Degraded, PathOutcome::Disabled)
    );
}

#[test]
fn fused_ids_pick_their_claims() {
    let claims = vec![
        Claim::new(ClaimId(1), "a", MemoryTier::Semantic),
        Claim::new(ClaimId(2), "b", MemoryTier::Semantic),
    ];
    assert_eq!(fused_picks(&claims, &vec![ClaimId(9), ClaimId(2), ClaimId(1)]), Some(vec![(1, 1), (2, 0)]));
    assert_eq!(fused_picks(&claims, &vec![ClaimId(9)]), None);
}
