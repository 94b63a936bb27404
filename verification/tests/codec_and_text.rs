use auto_llm_wiki::claim::MemoryTier;
use auto_llm_wiki::codec::{
    decode_audit_action, decode_outbox_kind, decode_tier, encode_audit_action, encode_outbox_kind,
    encode_tier, parse_tier,
};
use auto_llm_wiki::event::{AuditAction, OutboxEventKind};
use auto_llm_wiki::health::hash_text;
use auto_llm_wiki::wiki::{append_once, index_line, slugify};

#[test]
fn tiers_round_trip_through_their_names() {
    for tier in [MemoryTier::Working, MemoryTier::Episodic, MemoryTier::Semantic, MemoryTier::Procedural] {
        assert_eq!(decode_tier(encode_tier(tier)), tier);
    }
    assert_eq!(encode_tier(MemoryTier::Working), "working");
    assert_eq!(decode_tier("unknown"), MemoryTier::Semantic);
}

#[test]
fn parse_tier_ignores_ascii_case() {
    assert_eq!(parse_tier("WORKING"), MemoryTier::Working);
    assert_eq!(parse_tier("Episodic"), MemoryTier::Episodic);
    assert_eq!(parse_tier("procedural"), MemoryTier::Procedural);
    assert_eq!(parse_tier("semantic"), MemoryTier::Semantic);
    assert_eq!(parse_tier("whatever"), MemoryTier::Semantic);
}

#[test]
fn outbox_kinds_round_trip_through_their_names() {
    let kinds = [
        OutboxEventKind::SourceIngested,
        OutboxEventKind::ClaimUpserted,
        OutboxEventKind::ClaimSuperseded,
        OutboxEventKind::PageWritten,
        OutboxEventKind::QueryServed,
        OutboxEventKind::LintRunFinished,
        OutboxEventKind::SessionCrystallized,
    ];
    for kind in kinds {
        assert_eq!(decode_outbox_kind(encode_outbox_kind(&kind)), kind);
    }
    assert_eq!(encode_outbox_kind(&OutboxEventKind::LintRunFinished), "lint_run_finished");
    assert_eq!(decode_outbox_kind("bogus"), OutboxEventKind::ClaimUpserted);
}

#[test]
fn audit_actions_round_trip_through_their_names() {
    let actions = [
        AuditAction::Ingest,
        AuditAction::ClaimUpsert,
        AuditAction::ClaimSupersede,
        AuditAction::Query,
        AuditAction::Lint,
        AuditAction::Crystallize,
        AuditAction::PageWrite,
    ];
    for action in actions {
        assert_eq!(decode_audit_action(encode_audit_action(&action)), action);
    }
    assert_eq!(encode_audit_action(&AuditAction::PageWrite), "page_write");
    assert_eq!(decode_audit_action(""), AuditAction::ClaimUpsert);
}

#[test]
fn slugify_collapses_separators_and_lowercases() {
    assert_eq!(slugify("Redis TTL"), "redis-ttl");
    assert_eq!(slugify("  Hello,   World!! "), "hello-world");
    assert_eq!(slugify("analysis-redis"), "analysis-redis");
    assert_eq!(slugify("Ünïcode café"), "n-code-caf");
    assert_eq!(slugify("!!!"), "untitled");
    assert_eq!(slugify(""), "untitled");
}

#[test]
fn slugify_is_idempotent() {
    for title in ["Redis TTL", "--a--b--", "x", "Ünïcode", "", "A_B.C"] {
        let once = slugify(title);
        assert_eq!(slugify(&once), once);
    }
}

#[test]
fn append_once_adds_a_line_only_when_missing() {
    let line = index_line("redis-ops");
    assert_eq!(line, "- [[redis-ops]]\n");
    let content = "# Wiki Index\n\n";
    let updated = append_once(content, &line).expect("line appended");
    assert_eq!(updated, "# Wiki Index\n\n- [[redis-ops]]\n");
    assert!(append_once(&updated, &line).is_none());
}

#[test]
fn hash_text_is_lowercase_sha256_hex() {
    assert_eq!(
        hash_text("abc"),
        "ba7816bf8f01cfea414140de5dae2223b00361a396177a9cb410ff61f20015ad"
    );
    assert_eq!(hash_text("").len(), 64);
}
