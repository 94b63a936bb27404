# auto_llm_wiki

A knowledge wiki that keeps what it knows as claims: each claim has a memory
tier, scores, a supersession link and a stale flag; claims, sources and pages
live in SQLite and are projected to a Markdown wiki directory; queries combine
keyword, vector and graph retrieval; every write leaves outbox and audit
records.

## Layout

- `src/` is the verified library (Verus). Its modules:
  - `text`: character-level string handling (substring search, alphanumeric
    tokens, trimming, decimal rendering);
  - `ids`: claim and event identifiers and their hyphenated UUID text;
  - `claim`: claims, creation and supersession;
  - `wiki`: slugs, analysis page titles and bodies, index lines, append-once;
  - `event`: outbox events, audit records, the records each write produces,
    and which events a consumer has yet to acknowledge;
  - `codec`: the stored names of tiers, event kinds and audit actions;
  - `lint`: wiki links, the lint rules and the lint report;
  - `retrieval`: tokenizing, exact-score rankings and the grouping of ranks
    that fusion sums over;
  - `graph`: adjacency, bounded graph walks, and the nodes and edges each
    claim, source and page contributes;
  - `config`, `health`, `engine`: runtime configuration, provider health,
    index synchronisation bookkeeping, and the query flow's decisions
    (result limit, analysis page, degradation of missing providers);
  - `cli`: the command arguments.
- `app/` is the `wiki-cli` program around the library: SQLite storage,
  the wiki directory on disk, the HTTP embedding client, configuration
  files, JSON output, and the floating-point scores (retention strength,
  reciprocal-rank fusion, cosine similarity, graph-walk scores).
- `tests/` exercises the library through its public API.
