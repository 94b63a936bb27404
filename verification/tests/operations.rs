use auto_llm_wiki::claim::{Claim, MemoryTier, Timestamp};
use auto_llm_wiki::config::{secret_source, RuntimeConfig, SecretSource};
use auto_llm_wiki::engine::{
    plan_query_page, query_audit_summary, query_provider_runs, top_claims, vector_outcome, PathOutcome,
    QueryOptions,
};
use auto_llm_wiki::event::{
    claim_stored_records, lint_finished_records, pending_events, query_served_records, AuditAction,
    OutboxAck, OutboxEvent, OutboxEventKind, PayloadValue,
};
use auto_llm_wiki::health::{
    count_embedded, provider_health, sync_summary, HealthStatus, IndexCounts, SyncIndexResult,
};
use auto_llm_wiki::ids::{ClaimId, EventId};
use auto_llm_wiki::retrieval::rank_by_overlap;
use auto_llm_wiki::wiki::render_query_page;

fn event(id: u128) -> OutboxEvent {
    OutboxEvent {
        id: EventId(id),
        kind: OutboxEventKind::ClaimUpserted,
        aggregate_id: "agg".to_owned(),
        payload_json: "{}".to_owned(),
        created_at: Timestamp { seconds: id as i64, nanos: 0 },
    }
}

#[test]
fn outbox_export_and_ack_round_trip() {
    let events = vec![event(1), event(2), event(3)];
    let mut acks: Vec<OutboxAck> = Vec::new();
    let first = pending_events(&events, &acks, "test-consumer");
    assert_eq!(first.len(), 3);
    acks.push(OutboxAck { consumer: "test-consumer".to_owned(), event_id: first[0].id });
    let second = pending_events(&events, &acks, "test-consumer");
    assert_eq!(second.iter().map(|e| e.id).collect::<Vec<_>>(), vec![EventId(2), EventId(3)]);
    let other = pending_events(&events, &acks, "other");
    assert_eq!(other.len(), 3);
}

#[test]
fn vector_enabled_config_for_tests() {
    let c = RuntimeConfig::vector_enabled_for_tests("embedding-small");
    assert!(c.retrieval.vector.enabled);
    assert_eq!(c.retrieval.vector.model, "embedding-small");
    assert_eq!(c.retrieval.vector.base_url, "http://localhost");
    assert_eq!(c.retrieval.vector.timeout_ms, 5000);
    assert_eq!(c.retrieval.graph.max_neighbors, 32);
    let d = RuntimeConfig::default();
    assert!(!d.retrieval.vector.enabled);
    assert_eq!(d.retrieval.vector.timeout_ms, 30000);
    assert_eq!(d.retrieval.vector.model, "embedding-small");
}

#[test]
fn secrets_name_their_source() {
    match secret_source("env:TEST_EMBEDDING_KEY") {
        SecretSource::Env(name) => assert_eq!(name, "TEST_EMBEDDING_KEY"),
        SecretSource::Literal(_) => panic!("expected env"),
    }
    match secret_source("secret-token") {
        SecretSource::Literal(text) => assert_eq!(text, "secret-token"),
        SecretSource::Env(_) => panic!("expected literal"),
    }
    assert!(matches!(secret_source("env"), SecretSource::Literal(_)));
}

#[test]
fn provider_health_reports_three_providers() {
    let mut config = RuntimeConfig::vector_enabled_for_tests("embedding-small");
    let counts = IndexCounts { fts_rows: 12, pending_embeddings: 3, graph_nodes: 7, graph_edges: 9 };
    let h = provider_health(&config, counts);
    assert_eq!(h.len(), 3);
    assert_eq!(h[0].provider_name, "keyword-fts5");
    assert_eq!(h[0].status, HealthStatus::Ready);
    assert_eq!(h[0].message, "fts rows=12");
    assert_eq!(h[1].provider_name, "vector-openai-compatible");
    assert_eq!(h[1].status, HealthStatus::Degraded);
    assert_eq!(h[1].message, "model=embedding-small, pending_embeddings=3");
    assert_eq!(h[2].message, "graph nodes=7, edges=9");
    config.retrieval.vector.base_url = String::new();
    config.retrieval.graph.enabled = false;
    let h = provider_health(&config, IndexCounts { pending_embeddings: 0, ..counts });
    assert_eq!(h[1].status, HealthStatus::Unavailable);
    assert_eq!(h[2].status, HealthStatus::Unavailable);
    config.retrieval.vector.base_url = "http://x".to_owned();
    let h = provider_health(&config, IndexCounts { pending_embeddings: 0, ..counts });
    assert_eq!(h[1].status, HealthStatus::Ready);
}

#[test]
fn sync_index_bookkeeping() {
    assert_eq!(count_embedded(&vec![true, false, true]), 2);
    let r = SyncIndexResult { embedded_claims: 2, graph_nodes: 10, graph_edges: 0 };
    assert_eq!(sync_summary(&r), "Synced indexes: embeddings=2, graph_nodes=10, graph_edges=0");
}

#[test]
fn query_flow_writes_analysis_page_when_requested() {
    let claim = Claim::new(ClaimId::new(), "Redis default TTL is 3600 seconds", MemoryTier::Semantic);
    let plan = plan_query_page(
        "Redis TTL",
        &QueryOptions { write_page: true, page_title: Some("analysis-redis".to_owned()) },
    )
    .expect("page planned");
    assert_eq!(plan.slug, "analysis-redis");
    let top = top_claims(vec![claim.clone()]);
    let body = render_query_page("Redis TTL", &top);

    assert_eq!(top.len(), 1);
    assert!(body.contains("Redis default TTL is 3600 seconds"));
    assert!(body.contains("Redis TTL"));
    assert_eq!(
        body,
        format!(
            "# Query: Redis TTL\n\n## Results\n\n- Redis default TTL is 3600 seconds (`{}`)\n",
            claim.id.to_string()
        )
    );
}

#[test]
fn query_page_defaults_and_limits() {
    let plan = plan_query_page("Redis TTL?", &QueryOptions { write_page: true, page_title: None }).unwrap();
    assert_eq!(plan.title, "analysis-redis-ttl");
    assert_eq!(plan.slug, "analysis-redis-ttl");
    assert!(plan_query_page("x", &QueryOptions::default()).is_none());
    assert_eq!(render_query_page("q", &vec![]), "# Query: q\n\n## Results\n\nNo claims matched.\n");
    let many: Vec<Claim> = (0..7).map(|n| Claim::new(ClaimId(n), "c", MemoryTier::Working)).collect();
    let top = top_claims(many);
    assert_eq!(top.len(), 5);
    assert_eq!(top[4].id, ClaimId(4));
}

#[test]
fn write_records_name_kind_payload_and_audit() {
    let claim = Claim::new(ClaimId(5), "Redis", MemoryTier::Semantic);
    let (ev, audit) = claim_stored_records("tester", &claim);
    assert_eq!(ev.kind, OutboxEventKind::ClaimUpserted);
    assert_eq!(ev.aggregate_id, claim.id.to_string());
    assert_eq!(ev.payload[0].key, "claim_id");
    assert_eq!(ev.payload[1].key, "text");
    assert_eq!(audit.actor, "tester");
    assert_eq!(audit.action, AuditAction::ClaimUpsert);
    assert_eq!(audit.summary, format!("Stored claim {}", claim.id.to_string()));
    let (ev, audit) = query_served_records("cli", "Redis TTL", 2);
    assert!(matches!(ev.payload[1].value, PayloadValue::Count(2)));
    assert_eq!(audit.summary, "Served query `Redis TTL`");
    let (ev, audit) = lint_finished_records("cli", 3, "wiki/reports/lint-latest.md");
    assert_eq!(ev.aggregate_id, "lint");
    assert_eq!(audit.summary, "Ran lint with 3 issues");
}

#[test]
fn query_records_provider_runs_and_degrades_when_vector_provider_is_unavailable() {
    let claim = Claim::new(ClaimId::new(), "Redis default TTL is 3600 seconds", MemoryTier::Semantic);
    let config = RuntimeConfig::vector_enabled_for_tests("embedding-small");
    let vector = vector_outcome(&config, None);
    let runs = query_provider_runs(PathOutcome::Served, vector, PathOutcome::Served);
    let summary = query_audit_summary("Redis TTL", PathOutcome::Served, vector, PathOutcome::Served);
    let ranked = rank_by_overlap(&vec![claim.clone()], "Redis TTL");

    assert_eq!(ranked[0].claim_id, claim.id);
    assert!(runs
        .iter()
        .any(|run| run.provider_name == "vector-openai-compatible" && run.status == "degraded"));
    assert!(summary.contains("degraded providers"));
}

#[test]
fn degradation_names_each_degraded_provider() {
    let config = RuntimeConfig::default();
    assert_eq!(vector_outcome(&config, None), PathOutcome::Disabled);
    let enabled = RuntimeConfig::vector_enabled_for_tests("m");
    assert_eq!(vector_outcome(&enabled, Some(true)), PathOutcome::Served);
    assert_eq!(vector_outcome(&enabled, Some(false)), PathOutcome::Degraded);
    assert_eq!(
        query_audit_summary("q", PathOutcome::Served, PathOutcome::Disabled, PathOutcome::Served),
        "Served query `q`"
    );
    assert_eq!(
        query_audit_summary("q", PathOutcome::Degraded, PathOutcome::Served, PathOutcome::Degraded),
        "Served query `q`; degraded providers: keyword-fts5, graph-mempalace-local"
    );
    let runs = query_provider_runs(PathOutcome::Served, PathOutcome::Disabled, PathOutcome::Degraded);
    let statuses: Vec<&str> = runs.iter().map(|r| r.status.as_str()).collect();
    assert_eq!(statuses, vec!["ok", "disabled", "degraded"]);
}

#[test]
fn storing_claim_emits_outbox_and_audit_records() {
    let claim = Claim::new(ClaimId::new(), "Redis default TTL is 3600 seconds", MemoryTier::Semantic);
    let (outbox, audit) = claim_stored_records("tester", &claim);

    assert_eq!(outbox.kind, OutboxEventKind::ClaimUpserted);
    assert_eq!(outbox.aggregate_id, claim.id.to_string());
    assert_eq!(audit.action, AuditAction::ClaimUpsert);
    assert_eq!(audit.actor, "tester");
    assert_eq!(audit.summary, format!("Stored claim {}", claim.id.to_string()));
}

#[test]
fn acknowledging_twice_changes_no_export() {
    let events = vec![event(1), event(2)];
    let mut acks = vec![OutboxAck { consumer: "c".to_owned(), event_id: EventId(1) }];
    let once = pending_events(&events, &acks, "c");
    let other = pending_events(&events, &acks, "d");
    acks.push(OutboxAck { consumer: "c".to_owned(), event_id: EventId(1) });
    assert_eq!(
        pending_events(&events, &acks, "c").iter().map(|e| e.id).collect::<Vec<_>>(),
        once.iter().map(|e| e.id).collect::<Vec<_>>()
    );
    assert_eq!(pending_events(&events, &acks, "d").len(), other.len());
}
