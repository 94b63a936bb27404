//! Outbox events and audit records: what kinds exist, and the records
//! that each write of the wiki produces.
use vstd::prelude::*;
use crate::ids::{id_text, EventId};
use crate::claim::{Claim, ClaimReplacement, Timestamp};
use crate::text::{chars_of, decimal, owned, push_decimal, push_str, seq_eq, str_eq};

verus! {

/// What happened, as told to outbox consumers.
#[derive(Clone, Copy, PartialEq, Eq, Debug, Hash, Structural)]
pub enum OutboxEventKind {
    SourceIngested,
    ClaimUpserted,
    ClaimSuperseded,
    PageWritten,
    QueryServed,
    LintRunFinished,
    SessionCrystallized,
}

/// What an actor did, as kept in the audit trail.
#[derive(Clone, Copy, PartialEq, Eq, Debug, Hash, Structural)]
pub enum AuditAction {
    Ingest,
    ClaimUpsert,
    ClaimSupersede,
    Query,
    Lint,
    Crystallize,
    PageWrite,
}

/// An event of the outbox; its payload is kept as JSON text.
#[derive(Clone, Debug)]
pub struct OutboxEvent {
    pub id: EventId,
    pub kind: OutboxEventKind,
    pub aggregate_id: String,
    pub payload_json: String,
    pub created_at: Timestamp,
}

/// A record of the audit trail.
#[derive(Clone, Debug)]
pub struct AuditRecord {
    pub id: EventId,
    pub actor: String,
    pub action: AuditAction,
    pub summary: String,
    pub created_at: Timestamp,
}


// ---------------------------------------------------------------------------
// The records each write produces
// ---------------------------------------------------------------------------

/// A value of an event payload.
#[derive(Clone, Debug)]
pub enum PayloadValue {
    Text(String),
    Count(u64),
}

/// One field of an event payload (a JSON object).
#[derive(Clone, Debug)]
pub struct PayloadField {
    pub key: String,
    pub value: PayloadValue,
}

/// An outbox event to be recorded.
#[derive(Clone, Debug)]
pub struct EventDraft {
    pub kind: OutboxEventKind,
    pub aggregate_id: String,
    pub payload: Vec<PayloadField>,
}

/// An audit record to be written.
#[derive(Clone, Debug)]
pub struct AuditDraft {
    pub actor: String,
    pub action: AuditAction,
    pub summary: String,
}

pub enum PayloadView {
    Text(Seq<char>),
    Count(u64),
}

pub open spec fn payload_view(p: Seq<PayloadField>) -> Seq<(Seq<char>, PayloadView)> {
    p.map_values(
        |f: PayloadField|
            (
                f.key@,
                match f.value {
                    PayloadValue::Text(t) => PayloadView::Text(t@),
                    PayloadValue::Count(n) => PayloadView::Count(n),
                },
            ),
    )
}

fn text_field(key: &str, value: &str) -> (r: PayloadField)
    ensures
        r.key@ == key@,
        r.value matches PayloadValue::Text(t) && t@ == value@,
{
    PayloadField { key: owned(key), value: PayloadValue::Text(owned(value)) }
}

fn count_field(key: &str, value: u64) -> (r: PayloadField)
    ensures
        r.key@ == key@,
        r.value matches PayloadValue::Count(n) && n == value,
{
    PayloadField { key: owned(key), value: PayloadValue::Count(value) }
}

fn two_fields(a: PayloadField, b: PayloadField) -> (r: Vec<PayloadField>)
    ensures
        r@ == seq![a, b],
{
    let mut v: Vec<PayloadField> = Vec::new();
    v.push(a);
    v.push(b);
    v
}

fn three_fields(a: PayloadField, b: PayloadField, c: PayloadField) -> (r: Vec<PayloadField>)
    ensures
        r@ == seq![a, b, c],
{
    let mut v: Vec<PayloadField> = Vec::new();
    v.push(a);
    v.push(b);
    v.push(c);
    v
}

/// An ingested source: event `SourceIngested` on its URI with the URI and
/// scope, audited as `Ingest` with summary `Ingested source <uri>`.
pub fn source_ingested_records(actor: &str, uri: &str, scope: &str) -> (r: (EventDraft, AuditDraft))
    ensures
        r.0.kind == OutboxEventKind::SourceIngested,
        r.0.aggregate_id@ == uri@,
        payload_view(r.0.payload@) == seq![
            ("uri"@, PayloadView::Text(uri@)),
            ("scope"@, PayloadView::Text(scope@)),
        ],
        r.1.actor@ == actor@,
        r.1.action == AuditAction::Ingest,
        r.1.summary@ == "Ingested source "@ + uri@,
{
    let payload = two_fields(text_field("uri", uri), text_field("scope", scope));
    let mut summary = owned("Ingested source ");
    push_str(&mut summary, uri);
    let r = (
        EventDraft { kind: OutboxEventKind::SourceIngested, aggregate_id: owned(uri), payload },
        AuditDraft { actor: owned(actor), action: AuditAction::Ingest, summary },
    );
    assert(payload_view(r.0.payload@) =~= seq![
        ("uri"@, PayloadView::Text(uri@)),
        ("scope"@, PayloadView::Text(scope@)),
    ]);
    r
}

/// A written page: event `PageWritten` on its slug with slug, title and
/// path, audited as `PageWrite` with summary `Wrote page <slug>`.
pub fn page_written_records(actor: &str, slug: &str, title: &str, path: &str) -> (r: (
    EventDraft,
    AuditDraft,
))
    ensures
        r.0.kind == OutboxEventKind::PageWritten,
        r.0.aggregate_id@ == slug@,
        payload_view(r.0.payload@) == seq![
            ("slug"@, PayloadView::Text(slug@)),
            ("title"@, PayloadView::Text(title@)),
            ("path"@, PayloadView::Text(path@)),
        ],
        r.1.actor@ == actor@,
        r.1.action == AuditAction::PageWrite,
        r.1.summary@ == "Wrote page "@ + slug@,
{
    let payload = three_fields(
        text_field("slug", slug),
        text_field("title", title),
        text_field("path", path),
    );
    let mut summary = owned("Wrote page ");
    push_str(&mut summary, slug);
    let r = (
        EventDraft { kind: OutboxEventKind::PageWritten, aggregate_id: owned(slug), payload },
        AuditDraft { actor: owned(actor), action: AuditAction::PageWrite, summary },
    );
    assert(payload_view(r.0.payload@) =~= seq![
        ("slug"@, PayloadView::Text(slug@)),
        ("title"@, PayloadView::Text(title@)),
        ("path"@, PayloadView::Text(path@)),
    ]);
    r
}

/// A stored claim: event `ClaimUpserted` on its id with id and text,
/// audited as `ClaimUpsert` with summary `Stored claim <id>`.
pub fn claim_stored_records(actor: &str, claim: &Claim) -> (r: (EventDraft, AuditDraft))
    ensures
        r.0.kind == OutboxEventKind::ClaimUpserted,
        r.0.aggregate_id@ == id_text(claim.id.0),
        payload_view(r.0.payload@) == seq![
            ("claim_id"@, PayloadView::Text(id_text(claim.id.0))),
            ("text"@, PayloadView::Text(claim.text@)),
        ],
        r.1.actor@ == actor@,
        r.1.action == AuditAction::ClaimUpsert,
        r.1.summary@ == "Stored claim "@ + id_text(claim.id.0),
{
    let id = claim.id.to_string();
    let payload = two_fields(text_field("claim_id", id.as_str()), text_field("text", claim.text.as_str()));
    let mut summary = owned("Stored claim ");
    push_str(&mut summary, id.as_str());
    let r = (
        EventDraft { kind: OutboxEventKind::ClaimUpserted, aggregate_id: id, payload },
        AuditDraft { actor: owned(actor), action: AuditAction::ClaimUpsert, summary },
    );
    assert(payload_view(r.0.payload@) =~= seq![
        ("claim_id"@, PayloadView::Text(id_text(claim.id.0))),
        ("text"@, PayloadView::Text(claim.text@)),
    ]);
    r
}

/// A supersession: event `ClaimSuperseded` on the new claim's id with the
/// new id and the superseded id, audited as `ClaimSupersede` with summary
/// `Superseded claim <old> with <new>`.
pub fn claim_superseded_records(actor: &str, replacement: &ClaimReplacement) -> (r: (
    EventDraft,
    AuditDraft,
))
    ensures
        r.0.kind == OutboxEventKind::ClaimSuperseded,
        r.0.aggregate_id@ == id_text(replacement.current.id.0),
        payload_view(r.0.payload@) == seq![
            ("claim_id"@, PayloadView::Text(id_text(replacement.current.id.0))),
            ("supersedes"@, PayloadView::Text(id_text(replacement.previous.id.0))),
        ],
        r.1.actor@ == actor@,
        r.1.action == AuditAction::ClaimSupersede,
        r.1.summary@ == "Superseded claim "@ + id_text(replacement.previous.id.0) + " with "@
            + id_text(replacement.current.id.0),
{
    let cur = replacement.current.id.to_string();
    let prev = replacement.previous.id.to_string();
    let payload = two_fields(
        text_field("claim_id", cur.as_str()),
        text_field("supersedes", prev.as_str()),
    );
    let mut summary = owned("Superseded claim ");
    push_str(&mut summary, prev.as_str());
    push_str(&mut summary, " with ");
    push_str(&mut summary, cur.as_str());
    let r = (
        EventDraft { kind: OutboxEventKind::ClaimSuperseded, aggregate_id: cur, payload },
        AuditDraft { actor: owned(actor), action: AuditAction::ClaimSupersede, summary },
    );
    assert(payload_view(r.0.payload@) =~= seq![
        ("claim_id"@, PayloadView::Text(id_text(replacement.current.id.0))),
        ("supersedes"@, PayloadView::Text(id_text(replacement.previous.id.0))),
    ]);
    r
}

/// A served query: event `QueryServed` on the query text with the query
/// and the number of matches, audited as `Query` with summary
/// ``Served query `<query>` ``.
pub fn query_served_records(actor: &str, query: &str, matches: u64) -> (r: (EventDraft, AuditDraft))
    ensures
        r.0.kind == OutboxEventKind::QueryServed,
        r.0.aggregate_id@ == query@,
        payload_view(r.0.payload@) == seq![
            ("query"@, PayloadView::Text(query@)),
            ("matches"@, PayloadView::Count(matches)),
        ],
        r.1.actor@ == actor@,
        r.1.action == AuditAction::Query,
        r.1.summary@ == "Served query `"@ + query@ + "`"@,
{
    let payload = two_fields(text_field("query", query), count_field("matches", matches));
    let mut summary = owned("Served query `");
    push_str(&mut summary, query);
    push_str(&mut summary, "`");
    let r = (
        EventDraft { kind: OutboxEventKind::QueryServed, aggregate_id: owned(query), payload },
        AuditDraft { actor: owned(actor), action: AuditAction::Query, summary },
    );
    assert(payload_view(r.0.payload@) =~= seq![
        ("query"@, PayloadView::Text(query@)),
        ("matches"@, PayloadView::Count(matches)),
    ]);
    r
}

/// A finished lint run: event `LintRunFinished` on `lint` with the number
/// of issues and the report path, audited as `Lint` with summary
/// `Ran lint with <n> issues`.
pub fn lint_finished_records(actor: &str, issues: u64, report_path: &str) -> (r: (
    EventDraft,
    AuditDraft,
))
    ensures
        r.0.kind == OutboxEventKind::LintRunFinished,
        r.0.aggregate_id@ == "lint"@,
        payload_view(r.0.payload@) == seq![
            ("issues"@, PayloadView::Count(issues)),
            ("report"@, PayloadView::Text(report_path@)),
        ],
        r.1.actor@ == actor@,
        r.1.action == AuditAction::Lint,
        r.1.summary@ == "Ran lint with "@ + decimal(issues as nat) + " issues"@,
{
    let payload = two_fields(count_field("issues", issues), text_field("report", report_path));
    let mut summary = owned("Ran lint with ");
    push_decimal(&mut summary, issues);
    push_str(&mut summary, " issues");
    let r = (
        EventDraft { kind: OutboxEventKind::LintRunFinished, aggregate_id: owned("lint"), payload },
        AuditDraft { actor: owned(actor), action: AuditAction::Lint, summary },
    );
    assert(payload_view(r.0.payload@) =~= seq![
        ("issues"@, PayloadView::Count(issues)),
        ("report"@, PayloadView::Text(report_path@)),
    ]);
    r
}

// ---------------------------------------------------------------------------
// Outbox consumption
// ---------------------------------------------------------------------------

/// A consumer's acknowledgement of an event.
#[derive(Clone, Debug)]
pub struct OutboxAck {
    pub consumer: String,
    pub event_id: EventId,
}

pub open spec fn acks_view(acks: Seq<OutboxAck>) -> Seq<(Seq<char>, EventId)> {
    acks.map_values(|a: OutboxAck| (a.consumer@, a.event_id))
}

/// The events that `consumer` has not acknowledged, in outbox order.
pub open spec fn unacked(
    events: Seq<OutboxEvent>,
    acks: Seq<(Seq<char>, EventId)>,
    consumer: Seq<char>,
) -> Seq<OutboxEvent>
    decreases events.len(),
{
    if events.len() == 0 {
        Seq::empty()
    } else {
        let r = unacked(events.drop_last(), acks, consumer);
        if acks.contains((consumer, events.last().id)) {
            r
        } else {
            r.push(events.last())
        }
    }
}

fn acked(acks: &Vec<OutboxAck>, consumer: &Vec<char>, id: EventId) -> (r: bool)
    ensures
        r == acks_view(acks@).contains((consumer@, id)),
{
    let ghost av = acks_view(acks@);
    let mut i: usize = 0;
    while i < acks.len()
        invariant
            i <= acks.len(),
            av == acks_view(acks@),
            forall|k: int| 0 <= k < i ==> av[k] != (consumer@, id),
        decreases acks.len() - i,
    {
        if acks[i].event_id == id {
            let c = chars_of(acks[i].consumer.as_str());
            if seq_eq(&c, consumer) {
                assert(av[i as int] == (consumer@, id));
                return true;
            }
        }
        i = i + 1;
    }
    assert(!av.contains((consumer@, id))) by {
        if av.contains((consumer@, id)) {
            let k = choose|k: int| 0 <= k < av.len() && av[k] == (consumer@, id);
        }
    }
    false
}

/// The events of the outbox that `consumer` has not acknowledged, in outbox order.
pub fn pending_events(events: &Vec<OutboxEvent>, acks: &Vec<OutboxAck>, consumer: &str) -> (r: Vec<
    OutboxEvent,
>)
    ensures
        r@ == unacked(events@, acks_view(acks@), consumer@),
{
    let c = chars_of(consumer);
    let mut out: Vec<OutboxEvent> = Vec::new();
    let mut i: usize = 0;
    while i < events.len()
        invariant
            i <= events.len(),
            c@ == consumer@,
            out@ == unacked(events@.take(i as int), acks_view(acks@), consumer@),
        decreases events.len() - i,
    {
        assert(events@.take(i + 1).drop_last() =~= events@.take(i as int));
        if !acked(acks, &c, events[i].id) {
            out.push(events[i].copy_event());
        }
        i = i + 1;
    }
    assert(events@.take(events.len() as int) =~= events@);
    out
}

impl OutboxEvent {
    /// A field-by-field copy of the event.
    pub fn copy_event(&self) -> (r: OutboxEvent)
        ensures
            r == *self,
    {
        OutboxEvent {
            id: self.id,
            kind: self.kind,
            aggregate_id: self.aggregate_id.clone(),
            payload_json: self.payload_json.clone(),
            created_at: self.created_at,
        }
    }
}

/// Law: once `consumer` acknowledges an event, its export no longer holds
/// that event and is otherwise unchanged.
pub proof fn law_ack_removes_event(
    events: Seq<OutboxEvent>,
    acks: Seq<(Seq<char>, EventId)>,
    consumer: Seq<char>,
    id: EventId,
)
    ensures
        unacked(events, acks.push((consumer, id)), consumer) == unacked(events, acks, consumer).filter(
            |e: OutboxEvent| e.id != id,
        ),
    decreases events.len(),
{
    let acks2 = acks.push((consumer, id));
    let f = |e: OutboxEvent| e.id != id;
    if events.len() > 0 {
        law_ack_removes_event(events.drop_last(), acks, consumer, id);
        let r = unacked(events.drop_last(), acks, consumer);
        let e = events.last();
        assert(acks2.contains((consumer, e.id)) == (acks.contains((consumer, e.id)) || e.id == id))
            by {
            if e.id == id {
                assert(acks2[acks.len() as int] == (consumer, e.id));
            }
            if acks2.contains((consumer, e.id)) && e.id != id {
                let k = choose|k: int| 0 <= k < acks2.len() && acks2[k] == (consumer, e.id);
                assert(k < acks.len());
                assert(acks[k] == (consumer, e.id));
            }
            if acks.contains((consumer, e.id)) {
                let k = choose|k: int| 0 <= k < acks.len() && acks[k] == (consumer, e.id);
                assert(acks2[k] == (consumer, e.id));
            }
        }
        r.lemma_filter_push(e, f);
    } else {
        assert(Seq::<OutboxEvent>::empty().filter(f) =~= Seq::<OutboxEvent>::empty());
    }
}

/// Law: an acknowledgement by one consumer leaves every other consumer's
/// export as it was.
pub proof fn law_ack_leaves_other_consumers(
    events: Seq<OutboxEvent>,
    acks: Seq<(Seq<char>, EventId)>,
    consumer: Seq<char>,
    other: Seq<char>,
    id: EventId,
)
    requires
        consumer != other,
    ensures
        unacked(events, acks.push((consumer, id)), other) == unacked(events, acks, other),
    decreases events.len(),
{
    let acks2 = acks.push((consumer, id));
    if events.len() > 0 {
        law_ack_leaves_other_consumers(events.drop_last(), acks, consumer, other, id);
        let e = events.last();
        assert(acks2.contains((other, e.id)) == acks.contains((other, e.id))) by {
            if acks2.contains((other, e.id)) {
                let k = choose|k: int| 0 <= k < acks2.len() && acks2[k] == (other, e.id);
                assert(k < acks.len());
                assert(acks[k] == (other, e.id));
            }
            if acks.contains((other, e.id)) {
                let k = choose|k: int| 0 <= k < acks.len() && acks[k] == (other, e.id);
                assert(acks2[k] == (other, e.id));
            }
        }
    }
}

/// Law: without acknowledgements a consumer's export is the whole outbox.
pub proof fn law_fresh_consumer_sees_all(events: Seq<OutboxEvent>, consumer: Seq<char>)
    ensures
        unacked(events, Seq::empty(), consumer) == events,
    decreases events.len(),
{
    if events.len() > 0 {
        law_fresh_consumer_sees_all(events.drop_last(), consumer);
        assert(events.drop_last().push(events.last()) =~= events);
    }
}

/// Law: acknowledging an event a second time changes no consumer's export.
pub proof fn law_second_ack_changes_nothing(
    events: Seq<OutboxEvent>,
    acks: Seq<(Seq<char>, EventId)>,
    consumer: Seq<char>,
    id: EventId,
    reader: Seq<char>,
)
    ensures
        unacked(events, acks.push((consumer, id)).push((consumer, id)), reader) == unacked(
            events,
            acks.push((consumer, id)),
            reader,
        ),
    decreases events.len(),
{
    let once = acks.push((consumer, id));
    let twice = once.push((consumer, id));
    if events.len() > 0 {
        law_second_ack_changes_nothing(events.drop_last(), acks, consumer, id, reader);
        let e = events.last();
        assert(twice.contains((reader, e.id)) == once.contains((reader, e.id))) by {
            if twice.contains((reader, e.id)) {
                let k = choose|k: int| 0 <= k < twice.len() && twice[k] == (reader, e.id);
                if k == once.len() {
                    assert(once[acks.len() as int] == (reader, e.id));
                } else {
                    assert(once[k] == (reader, e.id));
                }
            }
            if once.contains((reader, e.id)) {
                let k = choose|k: int| 0 <= k < once.len() && once[k] == (reader, e.id);
                assert(twice[k] == (reader, e.id));
            }
        }
    }
}

} // verus!
