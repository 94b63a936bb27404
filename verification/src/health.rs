//! Provider health, index synchronisation bookkeeping, and the content
//! hash that marks which text an embedding was made from.
use vstd::prelude::*;
use crate::text::{decimal, owned, push_decimal, push_str};
use crate::claim::{current_time, Timestamp};
use crate::config::RuntimeConfig;
use vstd::string::StringSliceAdditionalSpecFns;

verus! {

#[derive(Clone, Copy, PartialEq, Eq, Debug, Hash, Structural)]
pub enum HealthStatus {
    Ready,
    Degraded,
    Unavailable,
}

/// The health of one retrieval provider.
#[derive(Clone, Debug)]
pub struct ProviderHealth {
    pub provider_name: String,
    pub status: HealthStatus,
    pub message: String,
    pub checked_at: Timestamp,
}

/// What the state tables hold that provider health reports on.
#[derive(Clone, Copy, Debug)]
pub struct IndexCounts {
    pub fts_rows: u64,
    pub pending_embeddings: u64,
    pub graph_nodes: u64,
    pub graph_edges: u64,
}

pub open spec fn keyword_status(c: RuntimeConfig) -> HealthStatus {
    if c.retrieval.keyword.enabled {
        HealthStatus::Ready
    } else {
        HealthStatus::Unavailable
    }
}

/// The vector provider is unavailable unless it is enabled with an
/// endpoint; it is degraded while claims wait for their embeddings.
pub open spec fn vector_status(c: RuntimeConfig, pending: u64) -> HealthStatus {
    if c.retrieval.vector.enabled && c.retrieval.vector.base_url@.len() > 0 {
        if pending > 0 {
            HealthStatus::Degraded
        } else {
            HealthStatus::Ready
        }
    } else {
        HealthStatus::Unavailable
    }
}

pub open spec fn graph_status(c: RuntimeConfig) -> HealthStatus {
    if c.retrieval.graph.enabled {
        HealthStatus::Ready
    } else {
        HealthStatus::Unavailable
    }
}

/// The health of the keyword, vector and graph providers, in that order,
/// with their names, statuses and messages.
pub open spec fn health_report(c: RuntimeConfig, n: IndexCounts, r: Seq<ProviderHealth>) -> bool {
    &&& r.len() == 3
    &&& r[0].provider_name@ == "keyword-fts5"@
    &&& r[0].status == keyword_status(c)
    &&& r[0].message@ == "fts rows="@ + decimal(n.fts_rows as nat)
    &&& r[1].provider_name@ == "vector-openai-compatible"@
    &&& r[1].status == vector_status(c, n.pending_embeddings)
    &&& r[1].message@ == "model="@ + c.retrieval.vector.model@ + ", pending_embeddings="@ + decimal(
        n.pending_embeddings as nat,
    )
    &&& r[2].provider_name@ == "graph-mempalace-local"@
    &&& r[2].status == graph_status(c)
    &&& r[2].message@ == "graph nodes="@ + decimal(n.graph_nodes as nat) + ", edges="@ + decimal(
        n.graph_edges as nat,
    )
}

/// The health of the three retrieval providers under the given
/// configuration and index counts, each stamped when it is checked.
pub fn provider_health(config: &RuntimeConfig, counts: IndexCounts) -> (r: Vec<ProviderHealth>)
    ensures
        health_report(*config, counts, r@),
{
    let keyword = if config.retrieval.keyword.enabled {
        HealthStatus::Ready
    } else {
        HealthStatus::Unavailable
    };
    let mut m0 = owned("fts rows=");
    push_decimal(&mut m0, counts.fts_rows);
    let h0 = ProviderHealth {
        provider_name: owned("keyword-fts5"),
        status: keyword,
        message: m0,
        checked_at: current_time(),
    };
    let vector = if config.retrieval.vector.enabled && !config.retrieval.vector.base_url.as_str().is_empty() {
        if counts.pending_embeddings > 0 {
            HealthStatus::Degraded
        } else {
            HealthStatus::Ready
        }
    } else {
        HealthStatus::Unavailable
    };
    let mut m1 = owned("model=");
    push_str(&mut m1, config.retrieval.vector.model.as_str());
    push_str(&mut m1, ", pending_embeddings=");
    push_decimal(&mut m1, counts.pending_embeddings);
    let h1 = ProviderHealth {
        provider_name: owned("vector-openai-compatible"),
        status: vector,
        message: m1,
        checked_at: current_time(),
    };
    let graph = if config.retrieval.graph.enabled {
        HealthStatus::Ready
    } else {
        HealthStatus::Unavailable
    };
    let mut m2 = owned("graph nodes=");
    push_decimal(&mut m2, counts.graph_nodes);
    push_str(&mut m2, ", edges=");
    push_decimal(&mut m2, counts.graph_edges);
    let h2 = ProviderHealth {
        provider_name: owned("graph-mempalace-local"),
        status: graph,
        message: m2,
        checked_at: current_time(),
    };
    let mut out: Vec<ProviderHealth> = Vec::new();
    out.push(h0);
    out.push(h1);
    out.push(h2);
    out
}

// ---------------------------------------------------------------------------
// Index synchronisation
// ---------------------------------------------------------------------------

/// What a run of index synchronisation did.
#[derive(Clone, Copy, Debug)]
pub struct SyncIndexResult {
    pub embedded_claims: usize,
    pub graph_nodes: usize,
    pub graph_edges: usize,
}

/// Whether a sync run embeds claims at all: only with vector retrieval
/// enabled and an embedding provider at hand.
pub fn embeds_claims(config: &RuntimeConfig, has_provider: bool) -> (r: bool)
    ensures
        r == (config.retrieval.vector.enabled && has_provider),
{
    config.retrieval.vector.enabled && has_provider
}

/// Counts the embeddings a sync run stored: one per claim whose embedding succeeded.
pub fn count_embedded(outcomes: &Vec<bool>) -> (r: usize)
    ensures
        r == outcomes@.filter(|b: bool| b).len(),
{
    let mut n: usize = 0;
    let mut i: usize = 0;
    while i < outcomes.len()
        invariant
            i <= outcomes.len(),
            n == outcomes@.take(i as int).filter(|b: bool| b).len(),
            n <= i,
        decreases outcomes.len() - i,
    {
        proof {
            outcomes@.take(i as int).lemma_filter_push(outcomes@[i as int], |b: bool| b);
        }
        assert(outcomes@.take(i + 1) =~= outcomes@.take(i as int).push(outcomes@[i as int]));
        if outcomes[i] {
            n = n + 1;
        }
        i = i + 1;
    }
    assert(outcomes@.take(outcomes.len() as int) =~= outcomes@);
    n
}

/// The audit summary of a sync run.
pub open spec fn sync_summary_text(r: SyncIndexResult) -> Seq<char> {
    "Synced indexes: embeddings="@ + decimal(r.embedded_claims as nat) + ", graph_nodes="@ + decimal(
        r.graph_nodes as nat,
    ) + ", graph_edges="@ + decimal(r.graph_edges as nat)
}

/// The audit summary of a sync run (see `sync_summary_text`).
pub fn sync_summary(r: &SyncIndexResult) -> (s: String)
    ensures
        s@ == sync_summary_text(*r),
{
    let mut s = owned("Synced indexes: embeddings=");
    push_decimal(&mut s, r.embedded_claims as u64);
    push_str(&mut s, ", graph_nodes=");
    push_decimal(&mut s, r.graph_nodes as u64);
    push_str(&mut s, ", graph_edges=");
    push_decimal(&mut s, r.graph_edges as u64);
    s
}

// ---------------------------------------------------------------------------
// Content hashes
// ---------------------------------------------------------------------------

/// The SHA-256 digest of a byte string.
pub uninterp spec fn sha256(data: Seq<u8>) -> Seq<u8>;

/// Calls `<sha2::Sha256 as Digest>::digest`. Claimed: the result is the
/// named digest `sha256` of the input, 32 bytes long (the output size of
/// SHA-256).
#[verifier::external_body]
fn sha256_digest(data: &[u8]) -> (r: Vec<u8>)
    ensures
        r@ == sha256(data@),
        r@.len() == 32,
{
    <sha2::Sha256 as sha2::Digest>::digest(data).to_vec()
}

pub open spec fn hex_digit(n: u8) -> char {
    if n < 10 {
        ((n + 48) as u32) as char
    } else {
        ((n + 87) as u32) as char
    }
}

/// Lowercase hexadecimal, two digits per byte (as `{:x}` writes a digest).
pub open spec fn hex_lower(data: Seq<u8>) -> Seq<char>
    decreases data.len(),
{
    if data.len() == 0 {
        Seq::empty()
    } else {
        hex_lower(data.drop_last()) + seq![hex_digit(data.last() / 16), hex_digit(data.last() % 16)]
    }
}

fn hex_char(n: u8) -> (c: char)
    requires
        n < 16,
    ensures
        c == hex_digit(n),
{
    if n < 10 {
        (n + 48) as char
    } else {
        (n + 87) as char
    }
}

/// The content hash of a text: the lowercase hex of the SHA-256 digest of its UTF-8 bytes.
pub fn hash_text(input: &str) -> (r: String)
    ensures
        r@ == hex_lower(sha256(input.spec_bytes())),
        r@.len() == 64,
{
    let digest = sha256_digest(input.as_bytes());
    let mut s = String::new();
    let mut i: usize = 0;
    while i < digest.len()
        invariant
            i <= digest.len(),
            s@ == hex_lower(digest@.take(i as int)),
            s@.len() == 2 * i,
        decreases digest.len() - i,
    {
        let b = digest[i];
        assert(digest@.take(i + 1).drop_last() =~= digest@.take(i as int));
        s.push(hex_char(b / 16));
        s.push(hex_char(b % 16));
        i = i + 1;
    }
    assert(digest@.take(digest.len() as int) =~= digest@);
    s
}

} // verus!
