//! Runtime configuration of the retrieval providers, its defaults, and how
//! a configured secret names where its value comes from.
use vstd::prelude::*;
use crate::text::{chars_of, owned, string_of};

verus! {

#[derive(Clone, Debug)]
pub struct RuntimeConfig {
    pub retrieval: RetrievalConfig,
}

#[derive(Clone, Debug)]
pub struct RetrievalConfig {
    pub keyword: KeywordConfig,
    pub vector: VectorConfig,
    pub graph: GraphConfig,
}

#[derive(Clone, Debug)]
pub struct KeywordConfig {
    pub enabled: bool,
    pub top_k: usize,
}

#[derive(Clone, Debug)]
pub struct VectorConfig {
    pub enabled: bool,
    pub base_url: String,
    pub api_key: Option<String>,
    pub model: String,
    pub timeout_ms: u64,
    pub batch_size: usize,
    pub top_k: usize,
}

#[derive(Clone, Debug)]
pub struct GraphConfig {
    pub enabled: bool,
    pub walk_depth: usize,
    pub max_neighbors: usize,
    pub top_k: usize,
}

/// The settings shared by the default configuration and the test
/// configuration: keyword and graph retrieval on with their usual limits,
/// and vector batches of 16 with 20 results.
pub open spec fn common_settings(c: RuntimeConfig) -> bool {
    &&& c.retrieval.keyword.enabled
    &&& c.retrieval.keyword.top_k == 20
    &&& c.retrieval.vector.api_key is None
    &&& c.retrieval.vector.batch_size == 16
    &&& c.retrieval.vector.top_k == 20
    &&& c.retrieval.graph.enabled
    &&& c.retrieval.graph.walk_depth == 2
    &&& c.retrieval.graph.max_neighbors == 32
    &&& c.retrieval.graph.top_k == 20
}

impl RuntimeConfig {
    /// A configuration with vector retrieval on, against `http://localhost`,
    /// using the given model and a 5-second timeout.
    pub fn vector_enabled_for_tests(model: &str) -> (r: RuntimeConfig)
        ensures
            common_settings(r),
            r.retrieval.vector.enabled,
            r.retrieval.vector.base_url@ == "http://localhost"@,
            r.retrieval.vector.model@ == model@,
            r.retrieval.vector.timeout_ms == 5000,
    {
        RuntimeConfig {
            retrieval: RetrievalConfig {
                keyword: KeywordConfig { enabled: true, top_k: 20 },
                vector: VectorConfig {
                    enabled: true,
                    base_url: owned("http://localhost"),
                    api_key: None,
                    model: owned(model),
                    timeout_ms: 5_000,
                    batch_size: 16,
                    top_k: 20,
                },
                graph: GraphConfig { enabled: true, walk_depth: 2, max_neighbors: 32, top_k: 20 },
            },
        }
    }
}

impl Default for RuntimeConfig {
    /// The conservative configuration used when none is given: vector
    /// retrieval off, no endpoint, model `embedding-small`, 30-second timeout.
    fn default() -> (r: RuntimeConfig)
        ensures
            common_settings(r),
            !r.retrieval.vector.enabled,
            r.retrieval.vector.base_url@ == Seq::<char>::empty(),
            r.retrieval.vector.model@ == "embedding-small"@,
            r.retrieval.vector.timeout_ms == 30000,
    {
        RuntimeConfig {
            retrieval: RetrievalConfig {
                keyword: KeywordConfig { enabled: true, top_k: 20 },
                vector: VectorConfig {
                    enabled: false,
                    base_url: String::new(),
                    api_key: None,
                    model: owned("embedding-small"),
                    timeout_ms: 30_000,
                    batch_size: 16,
                    top_k: 20,
                },
                graph: GraphConfig { enabled: true, walk_depth: 2, max_neighbors: 32, top_k: 20 },
            },
        }
    }
}

/// Where a configured secret comes from.
#[derive(Clone, Debug)]
pub enum SecretSource {
    /// The value of the named environment variable.
    Env(String),
    /// The configured text itself.
    Literal(String),
}

/// A configured secret `env:NAME` names the environment variable `NAME`;
/// any other text is the secret itself.
pub open spec fn secret_source_of(raw: Seq<char>) -> (bool, Seq<char>) {
    if raw.len() >= 4 && raw.take(4) == "env:"@ {
        (true, raw.skip(4))
    } else {
        (false, raw)
    }
}

/// Where the configured secret `raw` comes from (see `secret_source_of`).
pub fn secret_source(raw: &str) -> (r: SecretSource)
    ensures
        match r {
            SecretSource::Env(name) => secret_source_of(raw@) == (true, name@),
            SecretSource::Literal(text) => secret_source_of(raw@) == (false, text@),
        },
{
    let v = chars_of(raw);
    proof {
        reveal_strlit("env:");
    }
    if v.len() >= 4 && v[0] == 'e' && v[1] == 'n' && v[2] == 'v' && v[3] == ':' {
        assert(v@.take(4) =~= "env:"@);
        let mut rest: Vec<char> = Vec::new();
        let mut i: usize = 4;
        while i < v.len()
            invariant
                4 <= i <= v.len(),
                rest@ =~= v@.subrange(4, i as int),
            decreases v.len() - i,
        {
            rest.push(v[i]);
            i = i + 1;
        }
        SecretSource::Env(string_of(&rest))
    } else {
        assert(v@.len() >= 4 ==> v@.take(4) != "env:"@) by {
            if v@.len() >= 4 && v@.take(4) == "env:"@ {
                assert(v@.take(4)[0] == 'e');
                assert(v@.take(4)[1] == 'n');
                assert(v@.take(4)[2] == 'v');
                assert(v@.take(4)[3] == ':');
            }
        }
        SecretSource::Literal(owned(raw))
    }
}

} // verus!
