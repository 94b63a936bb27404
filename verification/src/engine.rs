//! The decisions of the engine's query flow that do not touch storage:
//! which retrieval paths run, how a query degrades when a provider is
//! missing or fails, how many claims a query returns, and the analysis
//! page that a query may write.
use vstd::prelude::*;
use crate::claim::Claim;
use crate::ids::{id_text, ClaimId};
use crate::config::RuntimeConfig;
use crate::wiki::{analysis_page_title, analysis_title, slug_of, slugify};
use crate::text::{has_sub, occurs_at, owned, push_str};

verus! {

/// How many claims a query returns at most.
pub const QUERY_RESULT_LIMIT: usize = 5;

/// Options of a query.
#[derive(Clone, Debug)]
pub struct QueryOptions {
    pub write_page: bool,
    pub page_title: Option<String>,
}

impl Default for QueryOptions {
    /// No page is written and no title is given.
    fn default() -> (r: QueryOptions)
        ensures
            !r.write_page,
            r.page_title is None,
    {
        QueryOptions { write_page: false, page_title: None }
    }
}

/// The analysis page a query writes: its title and its slug.
#[derive(Clone, Debug)]
pub struct PagePlan {
    pub title: String,
    pub slug: String,
}

/// The page a query writes when its options ask for one: titled by the
/// given title or `analysis-<slug of query>`, under the slug of that title.
pub fn plan_query_page(query: &str, options: &QueryOptions) -> (r: Option<PagePlan>)
    ensures
        r is Some <==> options.write_page,
        r matches Some(p) ==> p.title@ == analysis_title(
            query@,
            match options.page_title {
                Some(t) => Some(t@),
                None => None,
            },
        ) && p.slug@ == slug_of(p.title@),
{
    if !options.write_page {
        return None;
    }
    let title = analysis_page_title(query, &options.page_title);
    let slug = slugify(title.as_str());
    Some(PagePlan { title, slug })
}

/// Whether the vector path runs: vector retrieval enabled and a vector
/// retriever at hand.
pub fn vector_path_runs(config: &RuntimeConfig, has_retriever: bool) -> (r: bool)
    ensures
        r == (config.retrieval.vector.enabled && has_retriever),
{
    config.retrieval.vector.enabled && has_retriever
}

/// Whether the graph path runs: graph retrieval enabled.
pub fn graph_path_runs(config: &RuntimeConfig) -> (r: bool)
    ensures
        r == config.retrieval.graph.enabled,
{
    config.retrieval.graph.enabled
}

/// The first `QUERY_RESULT_LIMIT` claims of a ranking.
pub fn top_claims(ranked: Vec<Claim>) -> (r: Vec<Claim>)
    ensures
        r@ == if ranked@.len() <= QUERY_RESULT_LIMIT {
            ranked@
        } else {
            ranked@.take(QUERY_RESULT_LIMIT as int)
        },
{
    let mut ranked = ranked;
    if ranked.len() > QUERY_RESULT_LIMIT {
        ranked.truncate(QUERY_RESULT_LIMIT);
    }
    ranked
}

// ---------------------------------------------------------------------------
// Degradation
// ---------------------------------------------------------------------------

/// What became of one retrieval path during a query.
#[derive(Clone, Copy, PartialEq, Eq, Debug, Structural)]
pub enum PathOutcome {
    Disabled,
    Served,
    Degraded,
}

/// The vector path is disabled unless vector retrieval is enabled; then it
/// is served when a retriever was at hand and answered (`Some(true)`), and
/// degraded when there was none (`None`) or it failed (`Some(false)`).
pub open spec fn vector_outcome_of(enabled: bool, answered: Option<bool>) -> PathOutcome {
    if !enabled {
        PathOutcome::Disabled
    } else {
        match answered {
            Some(true) => PathOutcome::Served,
            _ => PathOutcome::Degraded,
        }
    }
}

/// The outcome of the vector path under the configuration, given whether a
/// retriever was at hand and, if so, whether it answered.
pub fn vector_outcome(config: &RuntimeConfig, answered: Option<bool>) -> (r: PathOutcome)
    ensures
        r == vector_outcome_of(config.retrieval.vector.enabled, answered),
{
    if !config.retrieval.vector.enabled {
        PathOutcome::Disabled
    } else {
        match answered {
            Some(true) => PathOutcome::Served,
            _ => PathOutcome::Degraded,
        }
    }
}

/// The outcomes of a query's three paths: the keyword search always runs
/// and so is served; the vector path as `vector_outcome_of`; the graph path
/// is served when graph retrieval is enabled and disabled otherwise.
pub open spec fn query_outcomes_of(config: RuntimeConfig, answered: Option<bool>) -> (
    PathOutcome,
    PathOutcome,
    PathOutcome,
) {
    (
        PathOutcome::Served,
        vector_outcome_of(config.retrieval.vector.enabled, answered),
        if config.retrieval.graph.enabled {
            PathOutcome::Served
        } else {
            PathOutcome::Disabled
        },
    )
}

/// The outcomes of a query's keyword, vector and graph paths (see
/// `query_outcomes_of`), given whether a vector retriever was at hand and,
/// if so, whether it answered.
pub fn query_outcomes(config: &RuntimeConfig, answered: Option<bool>) -> (r: (
    PathOutcome,
    PathOutcome,
    PathOutcome,
))
    ensures
        r == query_outcomes_of(*config, answered),
{
    let graph = if graph_path_runs(config) {
        PathOutcome::Served
    } else {
        PathOutcome::Disabled
    };
    (PathOutcome::Served, vector_outcome(config, answered), graph)
}

/// The status a provider run records for an outcome.
pub open spec fn outcome_status(o: PathOutcome) -> Seq<char> {
    match o {
        PathOutcome::Disabled => "disabled"@,
        PathOutcome::Served => "ok"@,
        PathOutcome::Degraded => "degraded"@,
    }
}

/// The status a provider run records for an outcome (see `outcome_status`).
pub fn run_status(o: PathOutcome) -> (r: &'static str)
    ensures
        r@ == outcome_status(o),
{
    match o {
        PathOutcome::Disabled => "disabled",
        PathOutcome::Served => "ok",
        PathOutcome::Degraded => "degraded",
    }
}

/// One provider's part in a query, as the run log records it.
#[derive(Clone, Debug)]
pub struct ProviderRun {
    pub provider_name: String,
    pub status: String,
}

/// The runs a query records: the keyword, vector and graph providers, in
/// that order, each with the status of its path.
pub fn query_provider_runs(keyword: PathOutcome, vector: PathOutcome, graph: PathOutcome) -> (r: Vec<
    ProviderRun,
>)
    ensures
        r@.len() == 3,
        r@[0].provider_name@ == "keyword-fts5"@,
        r@[0].status@ == outcome_status(keyword),
        r@[1].provider_name@ == "vector-openai-compatible"@,
        r@[1].status@ == outcome_status(vector),
        r@[2].provider_name@ == "graph-mempalace-local"@,
        r@[2].status@ == outcome_status(graph),
{
    let mut out: Vec<ProviderRun> = Vec::new();
    out.push(ProviderRun { provider_name: owned("keyword-fts5"), status: owned(run_status(keyword)) });
    out.push(
        ProviderRun {
            provider_name: owned("vector-openai-compatible"),
            status: owned(run_status(vector)),
        },
    );
    out.push(
        ProviderRun { provider_name: owned("graph-mempalace-local"), status: owned(run_status(graph)) },
    );
    out
}

/// The names of the degraded providers among keyword, vector and graph, in
/// that order.
pub open spec fn degraded_names(keyword: PathOutcome, vector: PathOutcome, graph: PathOutcome) -> Seq<
    Seq<char>,
> {
    (if keyword == PathOutcome::Degraded {
        seq!["keyword-fts5"@]
    } else {
        Seq::empty()
    }) + (if vector == PathOutcome::Degraded {
        seq!["vector-openai-compatible"@]
    } else {
        Seq::empty()
    }) + (if graph == PathOutcome::Degraded {
        seq!["graph-mempalace-local"@]
    } else {
        Seq::empty()
    })
}

/// Names joined by `", "`.
pub open spec fn joined(names: Seq<Seq<char>>) -> Seq<char>
    decreases names.len(),
{
    if names.len() == 0 {
        Seq::empty()
    } else if names.len() == 1 {
        names[0]
    } else {
        joined(names.drop_last()) + ", "@ + names.last()
    }
}

/// The audit summary of a served query: ``Served query `q` ``, followed,
/// when some provider degraded, by `; degraded providers: ` and their names.
pub open spec fn query_summary(
    query: Seq<char>,
    keyword: PathOutcome,
    vector: PathOutcome,
    graph: PathOutcome,
) -> Seq<char> {
    let names = degraded_names(keyword, vector, graph);
    "Served query `"@ + query + "`"@ + if names.len() == 0 {
        Seq::empty()
    } else {
        "; degraded providers: "@ + joined(names)
    }
}

/// The audit summary of a served query, naming the degraded providers.
pub fn query_audit_summary(query: &str, keyword: PathOutcome, vector: PathOutcome, graph: PathOutcome) -> (r:
    String)
    ensures
        r@ == query_summary(query@, keyword, vector, graph),
{
    let ghost names = degraded_names(keyword, vector, graph);
    let mut found: Vec<&'static str> = Vec::new();
    if keyword == PathOutcome::Degraded {
        found.push("keyword-fts5");
    }
    if vector == PathOutcome::Degraded {
        found.push("vector-openai-compatible");
    }
    if graph == PathOutcome::Degraded {
        found.push("graph-mempalace-local");
    }
    assert(found@.len() == names.len());
    assert(forall|j: int| 0 <= j < found@.len() ==> #[trigger] found@[j]@ == names[j]);
    let mut s = owned("Served query `");
    push_str(&mut s, query);
    push_str(&mut s, "`");
    let ghost base = s@;
    if found.len() > 0 {
        push_str(&mut s, "; degraded providers: ");
        let ghost head = s@;
        let mut i: usize = 0;
        while i < found.len()
            invariant
                i <= found@.len(),
                found@.len() == names.len(),
                forall|j: int| 0 <= j < found@.len() ==> #[trigger] found@[j]@ == names[j],
                s@ == head + joined(names.take(i as int)),
            decreases found@.len() - i,
        {
            assert(names.take(i + 1).drop_last() == names.take(i as int));
            if i > 0 {
                push_str(&mut s, ", ");
            }
            push_str(&mut s, found[i]);
            i = i + 1;
        }
        assert(names.take(found@.len() as int) == names);
    }
    s
}

// ---------------------------------------------------------------------------
// Index synchronisation, one claim at a time
// ---------------------------------------------------------------------------

/// What one attempt to embed a claim during index synchronisation records:
/// the provider run (provider, operation, target, status, error) and the
/// embedding state of the claim.
#[derive(Clone, Debug)]
pub struct EmbeddingRun {
    pub provider_name: String,
    pub operation: String,
    pub target_ref: String,
    pub status: String,
    pub error_message: Option<String>,
    pub embedding_status: String,
}

/// The records of one embedding attempt for `claim_id`, given the provider's
/// error message if it failed: an answered attempt is an `ok` run of the
/// vector provider and leaves the embedding `ready`; a failed one is a
/// `degraded` run carrying the error and leaves it `failed`.
pub fn embedding_run(claim_id: ClaimId, error: Option<String>) -> (r: EmbeddingRun)
    ensures
        r.provider_name@ == "vector-openai-compatible"@,
        r.operation@ == "sync-index"@,
        r.target_ref@ == id_text(claim_id.0),
        r.status@ == outcome_status(
            if error is None {
                PathOutcome::Served
            } else {
                PathOutcome::Degraded
            },
        ),
        r.error_message == error,
        r.embedding_status@ == (if error is None {
            "ready"@
        } else {
            "failed"@
        }),
{
    let outcome = if error.is_none() {
        PathOutcome::Served
    } else {
        PathOutcome::Degraded
    };
    let embedding_status = if error.is_none() {
        "ready"
    } else {
        "failed"
    };
    EmbeddingRun {
        provider_name: owned("vector-openai-compatible"),
        operation: owned("sync-index"),
        target_ref: claim_id.to_string(),
        status: owned(run_status(outcome)),
        error_message: error,
        embedding_status: owned(embedding_status),
    }
}

/// Law: with vector retrieval enabled, a query whose vector retriever is
/// missing or failed is not refused: its vector path degrades, the run log
/// records the vector provider as `degraded`, and the audit summary names
/// it among the degraded providers.
pub proof fn law_missing_vector_degrades(
    query: Seq<char>,
    keyword: PathOutcome,
    answered: Option<bool>,
    graph: PathOutcome,
)
    requires
        answered != Some(true),
    ensures
        vector_outcome_of(true, answered) == PathOutcome::Degraded,
        outcome_status(vector_outcome_of(true, answered)) == "degraded"@,
        degraded_names(keyword, vector_outcome_of(true, answered), graph).contains(
            "vector-openai-compatible"@,
        ),
        has_sub(
            query_summary(query, keyword, vector_outcome_of(true, answered), graph),
            "; degraded providers: "@,
        ),
{
    let v = vector_outcome_of(true, answered);
    let names = degraded_names(keyword, v, graph);
    let k: int = if keyword == PathOutcome::Degraded { 1 } else { 0 };
    assert(names[k] == "vector-openai-compatible"@);
    let hay = query_summary(query, keyword, v, graph);
    let head = "Served query `"@ + query + "`"@;
    assert(hay == head + ("; degraded providers: "@ + joined(names)));
    assert(hay.subrange(head.len() as int, (head.len() + "; degraded providers: "@.len()) as int)
        =~= "; degraded providers: "@);
    assert(occurs_at(hay, "; degraded providers: "@, head.len() as int));
}

} // verus!
