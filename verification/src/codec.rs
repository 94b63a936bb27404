//! The stored names of tiers, event kinds and audit actions, how names are
//! read back, the tier names accepted on the command line, and how a
//! stored claim row is read back into a claim.
use vstd::prelude::*;
use crate::claim::{
    format_timestamp, parse_timestamp, rfc3339_text, rfc3339_writable, timestamp_of_text, Claim, MemoryTier,
    Score, Timestamp,
};
use crate::ids::{id_text, law_id_text_injective, parse_uuid, uuid_parse, ClaimId};
use crate::event::{AuditAction, OutboxEventKind};
use crate::text::{ascii_lower_seq, ascii_lowercase, owned, str_eq};

verus! {

pub open spec fn tier_name(tier: MemoryTier) -> Seq<char> {
    match tier {
        MemoryTier::Working => "working"@,
        MemoryTier::Episodic => "episodic"@,
        MemoryTier::Semantic => "semantic"@,
        MemoryTier::Procedural => "procedural"@,
    }
}

/// The tier a stored name stands for; an unknown name reads as `Semantic`.
pub open spec fn tier_of_name(raw: Seq<char>) -> MemoryTier {
    if raw == "working"@ {
        MemoryTier::Working
    } else if raw == "episodic"@ {
        MemoryTier::Episodic
    } else if raw == "procedural"@ {
        MemoryTier::Procedural
    } else {
        MemoryTier::Semantic
    }
}

/// The stored name of a tier.
pub fn encode_tier(tier: MemoryTier) -> (r: &'static str)
    ensures
        r@ == tier_name(tier),
{
    match tier {
        MemoryTier::Working => "working",
        MemoryTier::Episodic => "episodic",
        MemoryTier::Semantic => "semantic",
        MemoryTier::Procedural => "procedural",
    }
}

/// The tier a stored name stands for; an unknown name reads as `Semantic`.
pub fn decode_tier(raw: &str) -> (r: MemoryTier)
    ensures
        r == tier_of_name(raw@),
{
    if str_eq(raw, "working") {
        MemoryTier::Working
    } else if str_eq(raw, "episodic") {
        MemoryTier::Episodic
    } else if str_eq(raw, "procedural") {
        MemoryTier::Procedural
    } else {
        MemoryTier::Semantic
    }
}

/// The tier named on the command line, read without regard to ASCII case;
/// an unknown name gives `Semantic`.
pub fn parse_tier(raw: &str) -> (r: MemoryTier)
    ensures
        r == tier_of_name(ascii_lower_seq(raw@)),
{
    let lower = ascii_lowercase(raw);
    decode_tier(lower.as_str())
}

/// Law: a tier is read back from its stored name.
pub proof fn law_tier_name_round_trip(tier: MemoryTier)
    ensures
        tier_of_name(tier_name(tier)) == tier,
{
    reveal_strlit("working");
    reveal_strlit("episodic");
    reveal_strlit("semantic");
    reveal_strlit("procedural");
    assert("working"@.len() != "episodic"@.len());
    assert("working"@.len() != "semantic"@.len());
    assert("working"@.len() != "procedural"@.len());
    assert("episodic"@[0] != "semantic"@[0]);
    assert("episodic"@.len() != "procedural"@.len());
    assert("semantic"@.len() != "procedural"@.len());
}

/// Law: a tier's stored name, in any ASCII case, is read on the command line as that tier.
pub proof fn law_parse_tier_accepts_names(tier: MemoryTier)
    ensures
        tier_of_name(ascii_lower_seq(tier_name(tier))) == tier,
{
    reveal_strlit("working");
    reveal_strlit("episodic");
    reveal_strlit("semantic");
    reveal_strlit("procedural");
    assert(ascii_lower_seq(tier_name(tier)) =~= tier_name(tier));
    law_tier_name_round_trip(tier);
}

pub open spec fn kind_name(kind: OutboxEventKind) -> Seq<char> {
    match kind {
        OutboxEventKind::SourceIngested => "source_ingested"@,
        OutboxEventKind::ClaimUpserted => "claim_upserted"@,
        OutboxEventKind::ClaimSuperseded => "claim_superseded"@,
        OutboxEventKind::PageWritten => "page_written"@,
        OutboxEventKind::QueryServed => "query_served"@,
        OutboxEventKind::LintRunFinished => "lint_run_finished"@,
        OutboxEventKind::SessionCrystallized => "session_crystallized"@,
    }
}

/// The event kind a stored name stands for; an unknown name reads as `ClaimUpserted`.
pub open spec fn kind_of_name(raw: Seq<char>) -> OutboxEventKind {
    if raw == "source_ingested"@ {
        OutboxEventKind::SourceIngested
    } else if raw == "claim_superseded"@ {
        OutboxEventKind::ClaimSuperseded
    } else if raw == "page_written"@ {
        OutboxEventKind::PageWritten
    } else if raw == "query_served"@ {
        OutboxEventKind::QueryServed
    } else if raw == "lint_run_finished"@ {
        OutboxEventKind::LintRunFinished
    } else if raw == "session_crystallized"@ {
        OutboxEventKind::SessionCrystallized
    } else {
        OutboxEventKind::ClaimUpserted
    }
}

/// The stored name of an event kind.
pub fn encode_outbox_kind(kind: &OutboxEventKind) -> (r: &'static str)
    ensures
        r@ == kind_name(*kind),
{
    match kind {
        OutboxEventKind::SourceIngested => "source_ingested",
        OutboxEventKind::ClaimUpserted => "claim_upserted",
        OutboxEventKind::ClaimSuperseded => "claim_superseded",
        OutboxEventKind::PageWritten => "page_written",
        OutboxEventKind::QueryServed => "query_served",
        OutboxEventKind::LintRunFinished => "lint_run_finished",
        OutboxEventKind::SessionCrystallized => "session_crystallized",
    }
}

/// The event kind a stored name stands for; an unknown name reads as `ClaimUpserted`.
pub fn decode_outbox_kind(raw: &str) -> (r: OutboxEventKind)
    ensures
        r == kind_of_name(raw@),
{
    if str_eq(raw, "source_ingested") {
        OutboxEventKind::SourceIngested
    } else if str_eq(raw, "claim_superseded") {
        OutboxEventKind::ClaimSuperseded
    } else if str_eq(raw, "page_written") {
        OutboxEventKind::PageWritten
    } else if str_eq(raw, "query_served") {
        OutboxEventKind::QueryServed
    } else if str_eq(raw, "lint_run_finished") {
        OutboxEventKind::LintRunFinished
    } else if str_eq(raw, "session_crystallized") {
        OutboxEventKind::SessionCrystallized
    } else {
        OutboxEventKind::ClaimUpserted
    }
}

/// Law: an event kind is read back from its stored name.
pub proof fn law_outbox_kind_round_trip(kind: OutboxEventKind)
    ensures
        kind_of_name(kind_name(kind)) == kind,
{
    reveal_strlit("source_ingested");
    reveal_strlit("claim_upserted");
    reveal_strlit("claim_superseded");
    reveal_strlit("page_written");
    reveal_strlit("query_served");
    reveal_strlit("lint_run_finished");
    reveal_strlit("session_crystallized");
    assert("source_ingested"@.len() != "claim_upserted"@.len());
    assert("source_ingested"@.len() != "claim_superseded"@.len());
    assert("source_ingested"@.len() != "page_written"@.len());
    assert("source_ingested"@.len() != "query_served"@.len());
    assert("source_ingested"@.len() != "lint_run_finished"@.len());
    assert("source_ingested"@.len() != "session_crystallized"@.len());
    assert("claim_upserted"@.len() != "claim_superseded"@.len());
    assert("claim_upserted"@.len() != "page_written"@.len());
    assert("claim_upserted"@.len() != "query_served"@.len());
    assert("claim_upserted"@.len() != "lint_run_finished"@.len());
    assert("claim_upserted"@.len() != "session_crystallized"@.len());
    assert("claim_superseded"@.len() != "page_written"@.len());
    assert("claim_superseded"@.len() != "query_served"@.len());
    assert("claim_superseded"@.len() != "lint_run_finished"@.len());
    assert("claim_superseded"@.len() != "session_crystallized"@.len());
    assert("page_written"@[0] != "query_served"@[0]);
    assert("page_written"@.len() != "lint_run_finished"@.len());
    assert("page_written"@.len() != "session_crystallized"@.len());
    assert("query_served"@.len() != "lint_run_finished"@.len());
    assert("query_served"@.len() != "session_crystallized"@.len());
    assert("lint_run_finished"@.len() != "session_crystallized"@.len());
}

pub open spec fn action_name(action: AuditAction) -> Seq<char> {
    match action {
        AuditAction::Ingest => "ingest"@,
        AuditAction::ClaimUpsert => "claim_upsert"@,
        AuditAction::ClaimSupersede => "claim_supersede"@,
        AuditAction::Query => "query"@,
        AuditAction::Lint => "lint"@,
        AuditAction::Crystallize => "crystallize"@,
        AuditAction::PageWrite => "page_write"@,
    }
}

/// The audit action a stored name stands for; an unknown name reads as `ClaimUpsert`.
pub open spec fn action_of_name(raw: Seq<char>) -> AuditAction {
    if raw == "ingest"@ {
        AuditAction::Ingest
    } else if raw == "claim_supersede"@ {
        AuditAction::ClaimSupersede
    } else if raw == "query"@ {
        AuditAction::Query
    } else if raw == "lint"@ {
        AuditAction::Lint
    } else if raw == "crystallize"@ {
        AuditAction::Crystallize
    } else if raw == "page_write"@ {
        AuditAction::PageWrite
    } else {
        AuditAction::ClaimUpsert
    }
}

/// The stored name of an audit action.
pub fn encode_audit_action(action: &AuditAction) -> (r: &'static str)
    ensures
        r@ == action_name(*action),
{
    match action {
        AuditAction::Ingest => "ingest",
        AuditAction::ClaimUpsert => "claim_upsert",
        AuditAction::ClaimSupersede => "claim_supersede",
        AuditAction::Query => "query",
        AuditAction::Lint => "lint",
        AuditAction::Crystallize => "crystallize",
        AuditAction::PageWrite => "page_write",
    }
}

/// The audit action a stored name stands for; an unknown name reads as `ClaimUpsert`.
pub fn decode_audit_action(raw: &str) -> (r: AuditAction)
    ensures
        r == action_of_name(raw@),
{
    if str_eq(raw, "ingest") {
        AuditAction::Ingest
    } else if str_eq(raw, "claim_supersede") {
        AuditAction::ClaimSupersede
    } else if str_eq(raw, "query") {
        AuditAction::Query
    } else if str_eq(raw, "lint") {
        AuditAction::Lint
    } else if str_eq(raw, "crystallize") {
        AuditAction::Crystallize
    } else if str_eq(raw, "page_write") {
        AuditAction::PageWrite
    } else {
        AuditAction::ClaimUpsert
    }
}

/// Law: an audit action is read back from its stored name.
pub proof fn law_audit_action_round_trip(action: AuditAction)
    ensures
        action_of_name(action_name(action)) == action,
{
    reveal_strlit("ingest");
    reveal_strlit("claim_upsert");
    reveal_strlit("claim_supersede");
    reveal_strlit("query");
    reveal_strlit("lint");
    reveal_strlit("crystallize");
    reveal_strlit("page_write");
    assert("ingest"@.len() != "claim_upsert"@.len());
    assert("ingest"@.len() != "claim_supersede"@.len());
    assert("ingest"@.len() != "query"@.len());
    assert("ingest"@.len() != "lint"@.len());
    assert("ingest"@.len() != "crystallize"@.len());
    assert("ingest"@.len() != "page_write"@.len());
    assert("claim_upsert"@.len() != "claim_supersede"@.len());
    assert("claim_upsert"@.len() != "query"@.len());
    assert("claim_upsert"@.len() != "lint"@.len());
    assert("claim_upsert"@.len() != "crystallize"@.len());
    assert("claim_upsert"@.len() != "page_write"@.len());
    assert("claim_supersede"@.len() != "query"@.len());
    assert("claim_supersede"@.len() != "lint"@.len());
    assert("claim_supersede"@.len() != "crystallize"@.len());
    assert("claim_supersede"@.len() != "page_write"@.len());
    assert("query"@.len() != "lint"@.len());
    assert("query"@.len() != "crystallize"@.len());
    assert("query"@.len() != "page_write"@.len());
    assert("lint"@.len() != "crystallize"@.len());
    assert("lint"@.len() != "page_write"@.len());
    assert("crystallize"@.len() != "page_write"@.len());
}

// ---------------------------------------------------------------------------
// Stored claim rows
// ---------------------------------------------------------------------------

/// The columns of a stored claim, as the store hands them back: ids and
/// times as text, scores as binary64 bit patterns, flags and counts as
/// integers.
#[derive(Clone, Debug)]
pub struct ClaimRow {
    pub id: String,
    pub text: String,
    pub tier: String,
    pub confidence: Score,
    pub quality_score: Score,
    pub supersedes: Option<String>,
    pub stale: i64,
    pub access_count: i64,
    pub created_at: String,
    pub updated_at: String,
}

/// Why a stored claim row cannot be read: a column that should hold a UUID
/// or an RFC 3339 time does not; the text of that column.
#[derive(Clone, Debug)]
pub enum RowError {
    InvalidId(String),
    InvalidTime(String),
}

/// A row error as (is it a time?, the offending text).
pub open spec fn row_error_view(e: RowError) -> (bool, Seq<char>) {
    match e {
        RowError::InvalidId(t) => (false, t@),
        RowError::InvalidTime(t) => (true, t@),
    }
}

/// The first column of the row that cannot be read, in column order: the
/// id, the superseded id, the creation time, the update time.
pub open spec fn claim_row_fault(row: ClaimRow) -> Option<(bool, Seq<char>)> {
    if uuid_parse(row.id@) is None {
        Some((false, row.id@))
    } else if row.supersedes is Some && uuid_parse(row.supersedes->0@) is None {
        Some((false, row.supersedes->0@))
    } else if timestamp_of_text(row.created_at@) is None {
        Some((true, row.created_at@))
    } else if timestamp_of_text(row.updated_at@) is None {
        Some((true, row.updated_at@))
    } else {
        None
    }
}

/// The claim a readable row stands for: the ids are the values `uuid`
/// reads, the tier is read by `tier_of_name`, the stale flag is a nonzero
/// integer, the access count is the integer cut to 32 bits, and the times
/// are the instants `chrono` reads.
pub open spec fn claim_of_row(row: ClaimRow, c: Claim) -> bool {
    &&& Some(c.id.0) == uuid_parse(row.id@)
    &&& c.text@ == row.text@
    &&& c.tier == tier_of_name(row.tier@)
    &&& c.confidence == row.confidence
    &&& c.quality_score == row.quality_score
    &&& match (row.supersedes, c.supersedes) {
        (Some(t), Some(p)) => Some(p.0) == uuid_parse(t@),
        (None, None) => true,
        _ => false,
    }
    &&& c.stale == (row.stale != 0)
    &&& c.access_count == row.access_count as u32
    &&& Some(c.created_at) == timestamp_of_text(row.created_at@)
    &&& Some(c.updated_at) == timestamp_of_text(row.updated_at@)
}

/// The row the store writes for a claim: the ids as `uuid` writes them,
/// the tier by its stored name, the scores as they are, the stale flag as
/// 1 or 0, the access count widened to 64 bits, and the times as chrono's
/// RFC 3339 text.
pub open spec fn row_of_claim(row: ClaimRow, c: Claim) -> bool {
    &&& row.id@ == id_text(c.id.0)
    &&& row.text@ == c.text@
    &&& row.tier@ == tier_name(c.tier)
    &&& row.confidence == c.confidence
    &&& row.quality_score == c.quality_score
    &&& match (row.supersedes, c.supersedes) {
        (Some(t), Some(p)) => t@ == id_text(p.0),
        (None, None) => true,
        _ => false,
    }
    &&& row.stale == (if c.stale {
        1i64
    } else {
        0i64
    })
    &&& row.access_count == c.access_count as i64
    &&& rfc3339_text(c.created_at.seconds, c.created_at.nanos) == Some(row.created_at@)
    &&& rfc3339_text(c.updated_at.seconds, c.updated_at.nanos) == Some(row.updated_at@)
}

/// Both of a claim's times are writable (see `rfc3339_writable`).
pub open spec fn claim_times_writable(c: Claim) -> bool {
    rfc3339_writable(c.created_at.seconds, c.created_at.nanos) && rfc3339_writable(
        c.updated_at.seconds,
        c.updated_at.nanos,
    )
}

/// Two claims agree field by field.
pub open spec fn same_claim(a: Claim, b: Claim) -> bool {
    &&& a.id == b.id
    &&& a.text@ == b.text@
    &&& a.tier == b.tier
    &&& a.confidence == b.confidence
    &&& a.quality_score == b.quality_score
    &&& a.supersedes == b.supersedes
    &&& a.stale == b.stale
    &&& a.access_count == b.access_count
    &&& a.created_at == b.created_at
    &&& a.updated_at == b.updated_at
}

/// The row the store writes for a claim (see `row_of_claim`), or `None`
/// where one of its times cannot be written; a claim whose times are
/// writable always gets its row.
pub fn encode_claim_row(claim: &Claim) -> (r: Option<ClaimRow>)
    ensures
        match r {
            Some(row) => row_of_claim(row, *claim),
            None => rfc3339_text(claim.created_at.seconds, claim.created_at.nanos) is None
                || rfc3339_text(claim.updated_at.seconds, claim.updated_at.nanos) is None,
        },
        claim_times_writable(*claim) ==> r is Some,
{
    let created_at = match format_timestamp(claim.created_at) {
        Some(t) => t,
        None => return None,
    };
    let updated_at = match format_timestamp(claim.updated_at) {
        Some(t) => t,
        None => return None,
    };
    let supersedes = match claim.supersedes {
        Some(p) => Some(p.to_string()),
        None => None,
    };
    Some(
        ClaimRow {
            id: claim.id.to_string(),
            text: claim.text.clone(),
            tier: owned(encode_tier(claim.tier)),
            confidence: claim.confidence,
            quality_score: claim.quality_score,
            supersedes,
            stale: if claim.stale {
                1
            } else {
                0
            },
            access_count: claim.access_count as i64,
            created_at,
            updated_at,
        },
    )
}

fn read_id(text: &String) -> (r: Result<ClaimId, RowError>)
    ensures
        match r {
            Ok(id) => uuid_parse(text@) == Some(id.0),
            Err(e) => uuid_parse(text@) is None && row_error_view(e) == (false, text@),
        },
        forall|v: u128| #[trigger] id_text(v) == text@ ==> (r matches Ok(id) && id.0 == v),
{
    let r = match parse_uuid(text.as_str()) {
        Ok(v) => Ok(ClaimId(v)),
        Err(e) => Err(RowError::InvalidId(e.text)),
    };
    assert forall|v: u128| #[trigger] id_text(v) == text@ implies (r matches Ok(id) && id.0 == v) by {
        if let Ok(id) = r {
            law_id_text_injective(id.0, v);
        }
    }
    r
}

fn read_time(text: &String) -> (r: Result<Timestamp, RowError>)
    ensures
        match r {
            Ok(t) => timestamp_of_text(text@) == Some(t),
            Err(e) => timestamp_of_text(text@) is None && row_error_view(e) == (true, text@),
        },
        forall|t: Timestamp|
            rfc3339_writable(t.seconds, t.nanos) && #[trigger] rfc3339_text(t.seconds, t.nanos) == Some(
                text@,
            ) ==> r == Ok::<Timestamp, RowError>(t),
{
    match parse_timestamp(text.as_str()) {
        Some(t) => Ok(t),
        None => Err(RowError::InvalidTime(text.clone())),
    }
}

/// Reads a stored claim row back into a claim (see `claim_of_row`), or
/// reports the first column that cannot be read (see `claim_row_fault`).
/// A row written for a claim with writable times reads back as that claim.
pub fn decode_claim_row(row: &ClaimRow) -> (r: Result<Claim, RowError>)
    ensures
        match r {
            Ok(c) => claim_row_fault(*row) is None && claim_of_row(*row, c),
            Err(e) => claim_row_fault(*row) == Some(row_error_view(e)),
        },
        forall|c: Claim|
            #[trigger] row_of_claim(*row, c) && claim_times_writable(c) ==> (r matches Ok(d) && same_claim(
                d,
                c,
            )),
{
    let id_r = read_id(&row.id);
    let sup_r: Result<Option<ClaimId>, RowError> = match &row.supersedes {
        Some(t) => match read_id(t) {
            Ok(p) => Ok(Some(p)),
            Err(e) => Err(e),
        },
        None => Ok(None),
    };
    let created_r = read_time(&row.created_at);
    let updated_r = read_time(&row.updated_at);
    let r = match (id_r, sup_r, created_r, updated_r) {
        (Err(e), _, _, _) => Err(e),
        (Ok(_), Err(e), _, _) => Err(e),
        (Ok(_), Ok(_), Err(e), _) => Err(e),
        (Ok(_), Ok(_), Ok(_), Err(e)) => Err(e),
        (Ok(id), Ok(supersedes), Ok(created_at), Ok(updated_at)) => Ok(
            Claim {
                id,
                text: row.text.clone(),
                tier: decode_tier(row.tier.as_str()),
                confidence: row.confidence,
                quality_score: row.quality_score,
                supersedes,
                stale: row.stale != 0,
                access_count: row.access_count as u32,
                created_at,
                updated_at,
            },
        ),
    };
    proof {
        assert forall|c: Claim| #[trigger]
            row_of_claim(*row, c) && claim_times_writable(c) implies (r matches Ok(d) && same_claim(
            d,
            c,
        )) by {
            assert(id_text(c.id.0) == row.id@);
            assert(rfc3339_text(c.created_at.seconds, c.created_at.nanos) == Some(row.created_at@));
            assert(rfc3339_text(c.updated_at.seconds, c.updated_at.nanos) == Some(row.updated_at@));
            law_tier_name_round_trip(c.tier);
            match c.supersedes {
                Some(p) => {
                    assert(id_text(p.0) == row.supersedes->0@);
                },
                None => {},
            }
        }
    }
    r
}

} // verus!
