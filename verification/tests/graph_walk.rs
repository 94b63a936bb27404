use auto_llm_wiki::claim::{Claim, MemoryTier};
use auto_llm_wiki::graph::{
    build_adjacency, claim_graph_sync, contains_any_token, page_graph_sync, source_graph_sync,
    walk_graph, GraphEdge, GraphNode, GraphSync,
};
use auto_llm_wiki::ids::ClaimId;

fn add(sync: GraphSync, nodes: &mut Vec<GraphNode>, edges: &mut Vec<GraphEdge>) {
    nodes.push(sync.node);
    nodes.extend(sync.concepts);
    for e in sync.edges {
        edges.push(GraphEdge { from_node: e.from_node, to_node: e.to_node });
    }
}

#[test]
fn graph_retrieval_returns_claims_connected_to_query_concepts() {
    let claim = Claim::new(ClaimId::new(), "Redis default TTL is 3600 seconds", MemoryTier::Semantic);
    let mut nodes = Vec::new();
    let mut edges = Vec::new();
    add(
        source_graph_sync(
            "src-1",
            "file:///notes/redis.md",
            "Redis throughput tuning and cache design notes",
        ),
        &mut nodes,
        &mut edges,
    );
    add(claim_graph_sync(&claim), &mut nodes, &mut edges);
    add(
        page_graph_sync("redis-ops", "redis-ops", "# Redis Ops\n\nRedis throughput and cache warmup guide.\n"),
        &mut nodes,
        &mut edges,
    );

    let adjacency = build_adjacency(&edges, 32);
    let hits = walk_graph(&nodes, &adjacency, "throughput", 2);

    assert_eq!(hits[0].claim_id, claim.id);
}

#[test]
fn claim_sync_links_claim_to_its_concepts() {
    let claim = Claim::new(ClaimId(1), "Redis TTL is long", MemoryTier::Semantic);
    let sync = claim_graph_sync(&claim);
    let id = claim.id.to_string();
    assert_eq!(sync.node.node_id, format!("claim:{id}"));
    assert_eq!(sync.node.node_type, "claim");
    assert_eq!(sync.node.external_ref, id);
    let concepts: Vec<&str> = sync.concepts.iter().map(|c| c.node_id.as_str()).collect();
    assert_eq!(concepts, vec!["concept:redis", "concept:long"]);
    assert_eq!(sync.edges[0].edge_id, format!("claim:{id}:mentions:concept:redis"));
    assert_eq!(sync.edges[0].edge_type, "mentions");
    assert_eq!(sync.edges[1].to_node, "concept:long");
}

#[test]
fn adjacency_sorts_dedups_and_truncates() {
    let e = |a: &str, b: &str| GraphEdge { from_node: a.to_owned(), to_node: b.to_owned() };
    let edges = vec![e("x", "c"), e("x", "a"), e("b", "x"), e("x", "a")];
    let adj = build_adjacency(&edges, 2);
    assert_eq!(adj[0].node, "x");
    assert_eq!(adj[0].neighbors, vec!["a", "b"]);
    let c = adj.iter().find(|n| n.node == "c").unwrap();
    assert_eq!(c.neighbors, vec!["x"]);
    assert_eq!(adj.len(), 4);
}

#[test]
fn walk_stops_at_depth_and_records_depths() {
    let node = |id: &str, ty: &str, r: &str, label: &str| GraphNode {
        node_id: id.to_owned(),
        node_type: ty.to_owned(),
        external_ref: r.to_owned(),
        label: label.to_owned(),
    };
    let near = ClaimId(7);
    let far = ClaimId(8);
    let nodes = vec![
        node("start", "concept", "x", "throughput"),
        node("c1", "claim", &near.to_string(), "near claim"),
        node("mid", "concept", "m", "mid"),
        node("c2", "claim", &far.to_string(), "far claim"),
    ];
    let e = |a: &str, b: &str| GraphEdge { from_node: a.to_owned(), to_node: b.to_owned() };
    let edges = vec![e("start", "c1"), e("start", "mid"), e("mid", "c2")];
    let adj = build_adjacency(&edges, 32);
    let shallow = walk_graph(&nodes, &adj, "throughput", 1);
    assert_eq!(shallow.len(), 1);
    assert_eq!(shallow[0].claim_id, near);
    assert_eq!(shallow[0].values, vec![1]);
    let deep = walk_graph(&nodes, &adj, "throughput", 2);
    assert_eq!(deep.len(), 2);
    assert_eq!(deep[1].claim_id, far);
    assert_eq!(deep[1].values, vec![2]);
}

#[test]
fn label_matching_uses_words_of_four_bytes_or_more() {
    assert!(contains_any_token("Redis Throughput Notes", "throughput?"));
    assert!(!contains_any_token("Redis TTL", "TTL"));
    assert!(contains_any_token("cache warmup", "a cache"));
}
