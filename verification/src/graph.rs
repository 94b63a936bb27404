//! The local knowledge graph: what nodes and concept edges a claim, a
//! source or a page contributes, the neighbour lists of a stored graph,
//! and the bounded breadth-first walk that finds claims near the
//! concepts of a query.
use vstd::prelude::*;
use crate::text::{
    chars_of, contains_seq, has_sub, lowercase_chars, owned, push_str, seq_eq, split_tokens,
    string_of, str_eq, tokens, unicode_lowercase,
};
use crate::ids::{id_text, uuid_parse, ClaimId};
use crate::claim::Claim;
use crate::retrieval::{add_to_groups, group_view, grouped, lemma_grouped_has, ClaimNumbers};

verus! {

/// A stored graph node.
#[derive(Clone, Debug)]
pub struct GraphNode {
    pub node_id: String,
    pub node_type: String,
    pub external_ref: String,
    pub label: String,
}

/// A stored graph edge (its endpoints).
#[derive(Clone, Debug)]
pub struct GraphEdge {
    pub from_node: String,
    pub to_node: String,
}

/// A node and its neighbours.
#[derive(Clone, Debug)]
pub struct Adjacent {
    pub node: String,
    pub neighbors: Vec<String>,
}

pub open spec fn texts(v: Seq<String>) -> Seq<Seq<char>> {
    v.map_values(|s: String| s@)
}

pub open spec fn edges_view(v: Seq<GraphEdge>) -> Seq<(Seq<char>, Seq<char>)> {
    v.map_values(|e: GraphEdge| (e.from_node@, e.to_node@))
}

pub open spec fn adjacency_view(v: Seq<Adjacent>) -> Seq<(Seq<char>, Seq<Seq<char>>)> {
    v.map_values(|a: Adjacent| (a.node@, texts(a.neighbors@)))
}

// ---------------------------------------------------------------------------
// Ordered sets of node ids
// ---------------------------------------------------------------------------

/// `a` comes before `b` in the order of `String`: lexicographic by code point.
pub open spec fn lex_lt(a: Seq<char>, b: Seq<char>) -> bool
    decreases a.len(),
{
    if a.len() == 0 {
        b.len() > 0
    } else if b.len() == 0 {
        false
    } else if a[0] != b[0] {
        (a[0] as u32) < (b[0] as u32)
    } else {
        lex_lt(a.drop_first(), b.drop_first())
    }
}

fn lex_less(a: &Vec<char>, b: &Vec<char>) -> (r: bool)
    ensures
        r == lex_lt(a@, b@),
{
    let mut i: usize = 0;
    assert(a@.skip(0) =~= a@);
    assert(b@.skip(0) =~= b@);
    while i < a.len() && i < b.len()
        invariant
            i <= a.len(),
            i <= b.len(),
            lex_lt(a@, b@) == lex_lt(a@.skip(i as int), b@.skip(i as int)),
        decreases a.len() - i,
    {
        assert(a@.skip(i as int)[0] == a@[i as int]);
        assert(b@.skip(i as int)[0] == b@[i as int]);
        if a[i] != b[i] {
            assert(a@.skip(i as int).len() > 0 && b@.skip(i as int).len() > 0);
            return (a[i] as u32) < (b[i] as u32);
        }
        assert(a@.skip(i as int).drop_first() =~= a@.skip(i + 1));
        assert(b@.skip(i as int).drop_first() =~= b@.skip(i + 1));
        i = i + 1;
    }
    assert(a@.skip(i as int).len() == a.len() - i);
    assert(b@.skip(i as int).len() == b.len() - i);
    i == a.len() && i < b.len()
}

/// `x` added to the ascending set `s` at its place (nothing added when it is there).
pub open spec fn set_insert(s: Seq<Seq<char>>, x: Seq<char>) -> Seq<Seq<char>>
    decreases s.len(),
{
    if s.len() == 0 {
        seq![x]
    } else if s.last() == x {
        s
    } else if lex_lt(s.last(), x) {
        s.push(x)
    } else {
        set_insert(s.drop_last(), x).push(s.last())
    }
}

fn insert_sorted(s: &mut Vec<Vec<char>>, x: Vec<char>)
    ensures
        final(s)@.map_values(|t: Vec<char>| t@) == set_insert(
            old(s)@.map_values(|t: Vec<char>| t@),
            x@,
        ),
{
    let ghost sv = s@.map_values(|t: Vec<char>| t@);
    let mut p = s.len();
    assert(sv.take(p as int) =~= sv);
    while p > 0 && !seq_eq(&s[p - 1], &x) && !lex_less(&s[p - 1], &x)
        invariant
            p <= s.len(),
            sv == s@.map_values(|t: Vec<char>| t@),
            set_insert(sv, x@) == set_insert(sv.take(p as int), x@) + sv.skip(p as int),
        decreases p,
    {
        let ghost t = sv.take(p as int);
        assert(t.last() == s@[p - 1]@);
        assert(t.drop_last() =~= sv.take(p - 1));
        assert(sv.skip(p - 1) =~= seq![t.last()] + sv.skip(p as int));
        assert(set_insert(sv.take(p - 1), x@).push(t.last()) + sv.skip(p as int) =~= set_insert(
            sv.take(p - 1),
            x@,
        ) + sv.skip(p - 1));
        p = p - 1;
    }
    if p > 0 && seq_eq(&s[p - 1], &x) {
        assert(sv.take(p as int) + sv.skip(p as int) =~= sv);
        return;
    }
    assert(set_insert(sv.take(p as int), x@) =~= sv.take(p as int).push(x@));
    s.insert(p, x);
    assert(s@.map_values(|t: Vec<char>| t@) =~= sv.take(p as int).push(x@) + sv.skip(p as int));
}

// ---------------------------------------------------------------------------
// Neighbour lists
// ---------------------------------------------------------------------------

/// The index of the entry of node `n`, if there is one.
pub open spec fn adj_index(g: Seq<(Seq<char>, Seq<Seq<char>>)>, n: Seq<char>) -> Option<int>
    decreases g.len(),
{
    if g.len() == 0 {
        None
    } else if g.last().0 == n {
        Some(g.len() - 1)
    } else {
        adj_index(g.drop_last(), n)
    }
}

/// Records `to` as a neighbour of `from`.
pub open spec fn adj_add(g: Seq<(Seq<char>, Seq<Seq<char>>)>, from: Seq<char>, to: Seq<char>) -> Seq<
    (Seq<char>, Seq<Seq<char>>),
> {
    match adj_index(g, from) {
        Some(k) => g.update(k, (from, set_insert(g[k].1, to))),
        None => g.push((from, seq![to])),
    }
}

/// Every endpoint of the edges with the ascending set of its neighbours,
/// in the order endpoints first appear (`from` before `to` in each edge).
pub open spec fn neighbor_sets(edges: Seq<(Seq<char>, Seq<char>)>) -> Seq<
    (Seq<char>, Seq<Seq<char>>),
>
    decreases edges.len(),
{
    if edges.len() == 0 {
        Seq::empty()
    } else {
        let e = edges.last();
        adj_add(adj_add(neighbor_sets(edges.drop_last()), e.0, e.1), e.1, e.0)
    }
}

/// The neighbour lists of a graph: every endpoint with the first
/// `max_neighbors` of its neighbours in ascending order.
pub open spec fn adjacency(edges: Seq<(Seq<char>, Seq<char>)>, max_neighbors: nat) -> Seq<
    (Seq<char>, Seq<Seq<char>>),
> {
    let g = neighbor_sets(edges);
    Seq::new(
        g.len(),
        |i: int|
            (
                g[i].0,
                if g[i].1.len() <= max_neighbors {
                    g[i].1
                } else {
                    g[i].1.take(max_neighbors as int)
                },
            ),
    )
}

struct NodeSet {
    node: Vec<char>,
    set: Vec<Vec<char>>,
}

spec fn nodesets_view(v: Seq<NodeSet>) -> Seq<(Seq<char>, Seq<Seq<char>>)> {
    v.map_values(|a: NodeSet| (a.node@, a.set@.map_values(|t: Vec<char>| t@)))
}

proof fn lemma_adj_index(g: Seq<(Seq<char>, Seq<Seq<char>>)>, n: Seq<char>)
    ensures
        match adj_index(g, n) {
            Some(k) => 0 <= k < g.len() && g[k].0 == n,
            None => forall|k: int| 0 <= k < g.len() ==> g[k].0 != n,
        },
    decreases g.len(),
{
    if g.len() > 0 && g.last().0 != n {
        lemma_adj_index(g.drop_last(), n);
        match adj_index(g, n) {
            Some(k) => {
                assert(g[k] == g.drop_last()[k]);
            },
            None => {
                assert forall|k: int| 0 <= k < g.len() implies g[k].0 != n by {
                    if k < g.len() - 1 {
                        assert(g[k] == g.drop_last()[k]);
                    }
                }
            },
        }
    }
}

fn find_nodeset(g: &Vec<NodeSet>, n: &Vec<char>) -> (r: Option<usize>)
    ensures
        match r {
            Some(k) => adj_index(nodesets_view(g@), n@) == Some(k as int),
            None => adj_index(nodesets_view(g@), n@) is None,
        },
{
    let mut p = g.len();
    assert(g@.take(g.len() as int) =~= g@);
    while p > 0
        invariant
            p <= g.len(),
            adj_index(nodesets_view(g@), n@) == adj_index(nodesets_view(g@.take(p as int)), n@),
        decreases p,
    {
        assert(nodesets_view(g@.take(p as int)).drop_last() =~= nodesets_view(g@.take(p - 1)));
        if seq_eq(&g[p - 1].node, n) {
            return Some(p - 1);
        }
        p = p - 1;
    }
    None
}

fn nodeset_add(g: &mut Vec<NodeSet>, from: &Vec<char>, to: &Vec<char>)
    ensures
        nodesets_view(final(g)@) == adj_add(nodesets_view(old(g)@), from@, to@),
{
    let ghost gv = nodesets_view(g@);
    proof {
        lemma_adj_index(gv, from@);
    }
    match find_nodeset(g, from) {
        Some(k) => {
            let mut set = Vec::new();
            std::mem::swap(&mut set, &mut g[k].set);
            let ghost before = g@;
            insert_sorted(&mut set, to.clone());
            let node = from.clone();
            g.set(k, NodeSet { node, set });
            assert(nodesets_view(g@) =~= gv.update(k as int, (from@, set_insert(gv[k as int].1, to@))));
        },
        None => {
            let mut set: Vec<Vec<char>> = Vec::new();
            set.push(to.clone());
            assert(set@.map_values(|t: Vec<char>| t@) =~= seq![to@]);
            g.push(NodeSet { node: from.clone(), set });
            assert(nodesets_view(g@) =~= gv.push((from@, seq![to@])));
        },
    }
}

/// The neighbour lists of the graph with the given edges (see `adjacency`).
pub fn build_adjacency(edges: &Vec<GraphEdge>, max_neighbors: usize) -> (r: Vec<Adjacent>)
    ensures
        adjacency_view(r@) == adjacency(edges_view(edges@), max_neighbors as nat),
{
    let mut g: Vec<NodeSet> = Vec::new();
    let mut i: usize = 0;
    while i < edges.len()
        invariant
            i <= edges.len(),
            nodesets_view(g@) == neighbor_sets(edges_view(edges@.take(i as int))),
        decreases edges.len() - i,
    {
        assert(edges_view(edges@.take(i + 1)).drop_last() =~= edges_view(edges@.take(i as int)));
        let from = chars_of(edges[i].from_node.as_str());
        let to = chars_of(edges[i].to_node.as_str());
        nodeset_add(&mut g, &from, &to);
        nodeset_add(&mut g, &to, &from);
        i = i + 1;
    }
    assert(edges@.take(edges.len() as int) =~= edges@);
    let ghost gv = nodesets_view(g@);
    let ghost want = adjacency(edges_view(edges@), max_neighbors as nat);
    let mut out: Vec<Adjacent> = Vec::new();
    let mut k: usize = 0;
    while k < g.len()
        invariant
            k <= g.len(),
            gv == nodesets_view(g@),
            want == adjacency(edges_view(edges@), max_neighbors as nat),
            gv == neighbor_sets(edges_view(edges@)),
            adjacency_view(out@) =~= want.take(k as int),
        decreases g.len() - k,
    {
        let set = &g[k].set;
        let ghost setv = set@.map_values(|t: Vec<char>| t@);
        let limit = if set.len() <= max_neighbors {
            set.len()
        } else {
            max_neighbors
        };
        let mut names: Vec<String> = Vec::new();
        let mut j: usize = 0;
        while j < limit
            invariant
                j <= limit <= set.len(),
                setv == set@.map_values(|t: Vec<char>| t@),
                texts(names@) =~= setv.take(j as int),
            decreases limit - j,
        {
            let ghost before = texts(names@);
            names.push(string_of(&set[j]));
            assert(setv[j as int] == set@[j as int]@);
            assert(texts(names@) =~= before.push(setv[j as int]));
            j = j + 1;
        }
        assert(texts(names@) =~= want[k as int].1) by {
            if set.len() <= max_neighbors {
                assert(setv.take(limit as int) =~= setv);
            }
        }
        let ghost before = adjacency_view(out@);
        out.push(Adjacent { node: string_of(&g[k].node), neighbors: names });
        assert(adjacency_view(out@) =~= before.push(want[k as int]));
        k = k + 1;
    }
    out
}


// ---------------------------------------------------------------------------
// The walk
// ---------------------------------------------------------------------------

/// Whether a node label mentions a query word of at least four bytes:
/// some such word of the lowercased query occurs in the lowercased label.
pub open spec fn label_matches(label: Seq<char>, query: Seq<char>) -> bool {
    let ws = tokens(unicode_lowercase(query), 4);
    exists|i: int| 0 <= i < ws.len() && #[trigger] has_sub(unicode_lowercase(label), ws[i])
}

/// Whether `label` mentions a word of `query` (see `label_matches`).
pub fn contains_any_token(label: &str, query: &str) -> (r: bool)
    ensures
        r == label_matches(label@, query@),
{
    let hay = lowercase_chars(&chars_of(label));
    let q = lowercase_chars(&chars_of(query));
    let ws = split_tokens(&q, 4);
    let ghost wv = ws@.map_values(|t: Vec<char>| t@);
    let mut i: usize = 0;
    while i < ws.len()
        invariant
            i <= ws.len(),
            wv == ws@.map_values(|t: Vec<char>| t@),
            wv == tokens(unicode_lowercase(query@), 4),
            hay@ == unicode_lowercase(label@),
            forall|k: int| 0 <= k < i ==> !has_sub(hay@, #[trigger] wv[k]),
        decreases ws.len() - i,
    {
        assert(wv[i as int] == ws@[i as int]@);
        if contains_seq(&hay, &ws[i]) {
            assert(has_sub(unicode_lowercase(label@), wv[i as int]));
            return true;
        }
        i = i + 1;
    }
    false
}

/// The neighbours of `n` (none when it has no entry).
pub open spec fn neighbors_of(adj: Seq<(Seq<char>, Seq<Seq<char>>)>, n: Seq<char>) -> Seq<Seq<char>> {
    match adj_index(adj, n) {
        Some(k) => adj[k].1,
        None => Seq::empty(),
    }
}

/// The neighbours of every node of `level`, node by node.
pub open spec fn neighbors_of_all(adj: Seq<(Seq<char>, Seq<Seq<char>>)>, level: Seq<Seq<char>>) -> Seq<
    Seq<char>,
>
    decreases level.len(),
{
    if level.len() == 0 {
        Seq::empty()
    } else {
        neighbors_of_all(adj, level.drop_last()) + neighbors_of(adj, level.last())
    }
}

/// The first occurrences in `s` of the nodes not in `seen`, in order.
pub open spec fn fresh(s: Seq<Seq<char>>, seen: Seq<Seq<char>>) -> Seq<Seq<char>>
    decreases s.len(),
{
    if s.len() == 0 {
        Seq::empty()
    } else {
        let r = fresh(s.drop_last(), seen);
        let x = s.last();
        if seen.contains(x) || r.contains(x) {
            r
        } else {
            r.push(x)
        }
    }
}

/// After `k` steps of the breadth-first walk from `start`: the nodes
/// visited so far, and the nodes first reached at depth `k`.
pub open spec fn walk_state(adj: Seq<(Seq<char>, Seq<Seq<char>>)>, start: Seq<char>, k: nat) -> (
    Seq<Seq<char>>,
    Seq<Seq<char>>,
)
    decreases k,
{
    if k == 0 {
        (seq![start], seq![start])
    } else {
        let prev = walk_state(adj, start, (k - 1) as nat);
        let n = fresh(neighbors_of_all(adj, prev.1), prev.0);
        (prev.0 + n, n)
    }
}

pub open spec fn with_depth(s: Seq<Seq<char>>, d: usize) -> Seq<(Seq<char>, usize)> {
    Seq::new(s.len(), |i: int| (s[i], d))
}

/// The nodes a walk from `start` visits up to depth `k`, with the depth at
/// which each is first reached, in breadth-first order.
pub open spec fn walk_visits(adj: Seq<(Seq<char>, Seq<Seq<char>>)>, start: Seq<char>, k: usize) -> Seq<
    (Seq<char>, usize),
>
    decreases k,
{
    if k == 0 {
        seq![(start, 0usize)]
    } else {
        walk_visits(adj, start, (k - 1) as usize) + with_depth(walk_state(adj, start, k as nat).1, k)
    }
}

proof fn lemma_walk_stops(adj: Seq<(Seq<char>, Seq<Seq<char>>)>, start: Seq<char>, d: usize, k: usize)
    requires
        d <= k,
        walk_state(adj, start, d as nat).1.len() == 0,
    ensures
        walk_visits(adj, start, k) == walk_visits(adj, start, d),
        walk_state(adj, start, k as nat).1.len() == 0,
    decreases k - d,
{
    if k > d {
        lemma_walk_stops(adj, start, d, (k - 1) as usize);
        let prev = walk_state(adj, start, (k - 1) as nat);
        assert(neighbors_of_all(adj, prev.1) =~= Seq::<Seq<char>>::empty());
        assert(with_depth(walk_state(adj, start, k as nat).1, k) =~= Seq::<(Seq<char>, usize)>::empty());
        assert(walk_visits(adj, start, k) =~= walk_visits(adj, start, (k - 1) as usize));
    }
}

/// Law: a walk is bounded: it starts at its start node at depth 0, and no
/// node is reached deeper than the walk depth.
pub proof fn law_walk_bounded(adj: Seq<(Seq<char>, Seq<Seq<char>>)>, start: Seq<char>, walk_depth: usize)
    ensures
        walk_visits(adj, start, walk_depth).len() >= 1,
        walk_visits(adj, start, walk_depth)[0] == (start, 0usize),
        forall|i: int|
            0 <= i < walk_visits(adj, start, walk_depth).len() ==> (#[trigger] walk_visits(
                adj,
                start,
                walk_depth,
            )[i]).1 <= walk_depth,
    decreases walk_depth,
{
    if walk_depth > 0 {
        let k = (walk_depth - 1) as usize;
        law_walk_bounded(adj, start, k);
        let a = walk_visits(adj, start, k);
        let b = with_depth(walk_state(adj, start, walk_depth as nat).1, walk_depth);
        let w = walk_visits(adj, start, walk_depth);
        assert(w == a + b);
        assert forall|i: int| 0 <= i < w.len() implies (#[trigger] w[i]).1 <= walk_depth by {
            if i < a.len() {
                assert(w[i] == a[i]);
            } else {
                assert(w[i] == b[i - a.len()]);
            }
        }
        assert(w[0] == a[0]);
    }
}

spec fn chars_seq(v: Seq<Vec<char>>) -> Seq<Seq<char>> {
    v.map_values(|t: Vec<char>| t@)
}

fn member(list: &Vec<Vec<char>>, item: &Vec<char>) -> (r: bool)
    ensures
        r == chars_seq(list@).contains(item@),
{
    let ghost lv = chars_seq(list@);
    let mut i: usize = 0;
    while i < list.len()
        invariant
            i <= list.len(),
            lv == chars_seq(list@),
            forall|k: int| 0 <= k < i ==> lv[k] != item@,
        decreases list.len() - i,
    {
        if seq_eq(&list[i], item) {
            assert(lv[i as int] == item@);
            return true;
        }
        i = i + 1;
    }
    assert(!lv.contains(item@)) by {
        if lv.contains(item@) {
            let k = choose|k: int| 0 <= k < lv.len() && lv[k] == item@;
        }
    }
    false
}

fn neighbors_in(adj: &Vec<NodeSet>, n: &Vec<char>) -> (r: Vec<Vec<char>>)
    ensures
        chars_seq(r@) == neighbors_of(nodesets_view(adj@), n@),
{
    proof {
        lemma_adj_index(nodesets_view(adj@), n@);
    }
    match find_nodeset(adj, n) {
        Some(k) => {
            let set = &adj[k].set;
            let mut out: Vec<Vec<char>> = Vec::new();
            let mut j: usize = 0;
            while j < set.len()
                invariant
                    j <= set.len(),
                    chars_seq(out@) =~= chars_seq(set@).take(j as int),
                decreases set.len() - j,
            {
                let ghost before = chars_seq(out@);
                out.push(set[j].clone());
                assert(chars_seq(out@) =~= before.push(set@[j as int]@));
                j = j + 1;
            }
            assert(chars_seq(set@).take(set.len() as int) =~= chars_seq(set@));
            out
        },
        None => Vec::new(),
    }
}

/// One step of the walk: the first occurrences among the neighbours of the
/// frontier of the nodes not yet visited.
fn next_level(adj: &Vec<NodeSet>, frontier: &Vec<Vec<char>>, visited: &Vec<Vec<char>>) -> (r: Vec<
    Vec<char>,
>)
    ensures
        chars_seq(r@) == fresh(
            neighbors_of_all(nodesets_view(adj@), chars_seq(frontier@)),
            chars_seq(visited@),
        ),
{
    let ghost av = nodesets_view(adj@);
    let ghost fv = chars_seq(frontier@);
    let ghost vv = chars_seq(visited@);
    let mut next: Vec<Vec<char>> = Vec::new();
    let mut i: usize = 0;
    while i < frontier.len()
        invariant
            i <= frontier.len(),
            av == nodesets_view(adj@),
            fv == chars_seq(frontier@),
            vv == chars_seq(visited@),
            chars_seq(next@) == fresh(neighbors_of_all(av, fv.take(i as int)), vv),
        decreases frontier.len() - i,
    {
        assert(fv.take(i + 1).drop_last() =~= fv.take(i as int));
        assert(fv.take(i + 1).last() == frontier@[i as int]@);
        let nb = neighbors_in(adj, &frontier[i]);
        let ghost base = neighbors_of_all(av, fv.take(i as int));
        let ghost nbv = chars_seq(nb@);
        let mut j: usize = 0;
        while j < nb.len()
            invariant
                j <= nb.len(),
                nbv == chars_seq(nb@),
                vv == chars_seq(visited@),
                chars_seq(next@) == fresh(base + nbv.take(j as int), vv),
            decreases nb.len() - j,
        {
            assert((base + nbv.take(j + 1)).drop_last() =~= base + nbv.take(j as int));
            assert((base + nbv.take(j + 1)).last() == nb@[j as int]@);
            if !member(visited, &nb[j]) && !member(&next, &nb[j]) {
                let ghost before = chars_seq(next@);
                next.push(nb[j].clone());
                assert(chars_seq(next@) =~= before.push(nb@[j as int]@));
            }
            j = j + 1;
        }
        assert(nbv.take(nb.len() as int) =~= nbv);
        i = i + 1;
    }
    assert(fv.take(frontier.len() as int) =~= fv);
    next
}

/// The visits of a walk from `start` of at most `walk_depth` steps (see `walk_visits`).
fn walk_from(adj: &Vec<NodeSet>, start: &Vec<char>, walk_depth: usize) -> (r: Vec<(Vec<char>, usize)>)
    ensures
        r@.map_values(|v: (Vec<char>, usize)| (v.0@, v.1)) == walk_visits(
            nodesets_view(adj@),
            start@,
            walk_depth,
        ),
{
    let ghost av = nodesets_view(adj@);
    let mut visited: Vec<Vec<char>> = Vec::new();
    visited.push(start.clone());
    let mut frontier: Vec<Vec<char>> = Vec::new();
    frontier.push(start.clone());
    let mut visits: Vec<(Vec<char>, usize)> = Vec::new();
    visits.push((start.clone(), 0));
    assert(chars_seq(visited@) =~= seq![start@]);
    assert(chars_seq(frontier@) =~= seq![start@]);
    assert(visits@.map_values(|v: (Vec<char>, usize)| (v.0@, v.1)) =~= seq![(start@, 0usize)]);
    let mut d: usize = 0;
    while d < walk_depth
        invariant
            d <= walk_depth,
            av == nodesets_view(adj@),
            (chars_seq(visited@), chars_seq(frontier@)) == walk_state(av, start@, d as nat),
            visits@.map_values(|v: (Vec<char>, usize)| (v.0@, v.1)) == walk_visits(av, start@, d),
        decreases walk_depth - d,
    {
        if frontier.len() == 0 {
            proof {
                lemma_walk_stops(av, start@, d, walk_depth);
            }
            return visits;
        }
        let next = next_level(adj, &frontier, &visited);
        let ghost nv = chars_seq(next@);
        let ghost vbefore = visits@.map_values(|v: (Vec<char>, usize)| (v.0@, v.1));
        let ghost visited_before = chars_seq(visited@);
        let mut k: usize = 0;
        while k < next.len()
            invariant
                k <= next.len(),
                d < walk_depth,
                nv == chars_seq(next@),
                chars_seq(visited@) == visited_before + nv.take(k as int),
                visits@.map_values(|v: (Vec<char>, usize)| (v.0@, v.1)) == vbefore + with_depth(
                    nv.take(k as int),
                    (d + 1) as usize,
                ),
            decreases next.len() - k,
        {
            let ghost vb = chars_seq(visited@);
            let ghost wb = visits@.map_values(|v: (Vec<char>, usize)| (v.0@, v.1));
            visited.push(next[k].clone());
            visits.push((next[k].clone(), d + 1));
            assert(chars_seq(visited@) =~= vb.push(nv[k as int]));
            assert(visits@.map_values(|v: (Vec<char>, usize)| (v.0@, v.1)) =~= wb.push(
                (nv[k as int], (d + 1) as usize),
            ));
            assert(with_depth(nv.take(k + 1), (d + 1) as usize) =~= with_depth(
                nv.take(k as int),
                (d + 1) as usize,
            ).push((nv[k as int], (d + 1) as usize)));
            assert(visited_before + nv.take(k + 1) =~= (visited_before + nv.take(k as int)).push(
                nv[k as int],
            ));
            k = k + 1;
        }
        assert(nv.take(next.len() as int) =~= nv);
        frontier = next;
        d = d + 1;
    }
    visits
}

/// The claim that the node with id `n` stands for: the last node with
/// that id, when it is of type `claim` and its external reference reads as
/// a UUID.
pub open spec fn node_claim(nodes: Seq<GraphNode>, n: Seq<char>) -> Option<ClaimId>
    decreases nodes.len(),
{
    if nodes.len() == 0 {
        None
    } else if nodes.last().node_id@ == n {
        if nodes.last().node_type@ == "claim"@ {
            match uuid_parse(nodes.last().external_ref@) {
                Some(v) => Some(ClaimId(v)),
                None => None,
            }
        } else {
            None
        }
    } else {
        node_claim(nodes.drop_last(), n)
    }
}

/// The claims among the visits, with the depth of each visit, in order.
pub open spec fn claim_visits(nodes: Seq<GraphNode>, visits: Seq<(Seq<char>, usize)>) -> Seq<
    (ClaimId, usize),
>
    decreases visits.len(),
{
    if visits.len() == 0 {
        Seq::empty()
    } else {
        let r = claim_visits(nodes, visits.drop_last());
        match node_claim(nodes, visits.last().0) {
            Some(c) => r.push((c, visits.last().1)),
            None => r,
        }
    }
}

/// The ids of the nodes whose label mentions a word of the query, in node order.
pub open spec fn start_nodes(nodes: Seq<GraphNode>, query: Seq<char>) -> Seq<Seq<char>>
    decreases nodes.len(),
{
    if nodes.len() == 0 {
        Seq::empty()
    } else if label_matches(nodes.last().label@, query) {
        start_nodes(nodes.drop_last(), query).push(nodes.last().node_id@)
    } else {
        start_nodes(nodes.drop_last(), query)
    }
}

/// The claims reached by walks from each start node in turn, with depths.
pub open spec fn walk_entries(
    nodes: Seq<GraphNode>,
    adj: Seq<(Seq<char>, Seq<Seq<char>>)>,
    starts: Seq<Seq<char>>,
    walk_depth: usize,
) -> Seq<(ClaimId, usize)>
    decreases starts.len(),
{
    if starts.len() == 0 {
        Seq::empty()
    } else {
        walk_entries(nodes, adj, starts.drop_last(), walk_depth) + claim_visits(
            nodes,
            walk_visits(adj, starts.last(), walk_depth),
        )
    }
}

/// The claims that walks of at most `walk_depth` steps reach from the nodes
/// whose label mentions a query word, each with the depths at which it
/// was reached (one per walk), grouped in the order claims are first reached.
pub open spec fn graph_walk_hits(
    nodes: Seq<GraphNode>,
    adj: Seq<(Seq<char>, Seq<Seq<char>>)>,
    query: Seq<char>,
    walk_depth: usize,
) -> Seq<(ClaimId, Seq<usize>)> {
    grouped(walk_entries(nodes, adj, start_nodes(nodes, query), walk_depth))
}

/// `p` is a path of the graph: each node after the first is a neighbour
/// of the node before it.
pub open spec fn is_path(adj: Seq<(Seq<char>, Seq<Seq<char>>)>, p: Seq<Seq<char>>) -> bool {
    forall|i: int| 0 <= i < p.len() - 1 ==> #[trigger] neighbors_of(adj, p[i]).contains(p[i + 1])
}

/// `n` can be reached from `start` along a path of at most `k` steps.
pub open spec fn reachable_within(
    adj: Seq<(Seq<char>, Seq<Seq<char>>)>,
    start: Seq<char>,
    n: Seq<char>,
    k: nat,
) -> bool {
    exists|p: Seq<Seq<char>>|
        #[trigger] is_path(adj, p) && 1 <= p.len() <= k + 1 && p[0] == start && p.last() == n
}

proof fn lemma_contains_left<A>(a: Seq<A>, b: Seq<A>, x: A)
    requires
        a.contains(x),
    ensures
        (a + b).contains(x),
{
    let i = choose|i: int| 0 <= i < a.len() && a[i] == x;
    assert((a + b)[i] == x);
}

proof fn lemma_contains_right<A>(a: Seq<A>, b: Seq<A>, x: A)
    requires
        b.contains(x),
    ensures
        (a + b).contains(x),
{
    let i = choose|i: int| 0 <= i < b.len() && b[i] == x;
    assert((a + b)[a.len() + i] == x);
}

proof fn lemma_contains_split<A>(a: Seq<A>, b: Seq<A>, x: A)
    requires
        (a + b).contains(x),
    ensures
        a.contains(x) || b.contains(x),
{
    let i = choose|i: int| 0 <= i < (a + b).len() && (a + b)[i] == x;
    if i < a.len() {
        assert(a[i] == x);
    } else {
        assert(b[i - a.len()] == x);
    }
}

/// A node of `s` is either already seen or kept by `fresh`.
proof fn lemma_fresh_keeps(s: Seq<Seq<char>>, seen: Seq<Seq<char>>, x: Seq<char>)
    requires
        s.contains(x),
    ensures
        seen.contains(x) || fresh(s, seen).contains(x),
    decreases s.len(),
{
    let r = fresh(s.drop_last(), seen);
    if s.last() == x {
        if !seen.contains(x) && !r.contains(x) {
            assert(fresh(s, seen) == r.push(x));
            assert(r.push(x)[r.len() as int] == x);
        } else if r.contains(x) {
            lemma_fresh_grows(s, seen, x);
        }
    } else {
        let i = choose|i: int| 0 <= i < s.len() && s[i] == x;
        assert(s.drop_last()[i] == x);
        lemma_fresh_keeps(s.drop_last(), seen, x);
        if r.contains(x) {
            lemma_fresh_grows(s, seen, x);
        }
    }
}

/// What `fresh` keeps of a prefix it keeps of the whole.
proof fn lemma_fresh_grows(s: Seq<Seq<char>>, seen: Seq<Seq<char>>, x: Seq<char>)
    requires
        s.len() > 0,
        fresh(s.drop_last(), seen).contains(x),
    ensures
        fresh(s, seen).contains(x),
{
    let r = fresh(s.drop_last(), seen);
    if !(seen.contains(s.last()) || r.contains(s.last())) {
        lemma_contains_left(r, seq![s.last()], x);
        assert(r.push(s.last()) =~= r + seq![s.last()]);
    }
}

/// A neighbour of a node of the level is among the level's neighbours.
proof fn lemma_level_neighbors(
    adj: Seq<(Seq<char>, Seq<Seq<char>>)>,
    level: Seq<Seq<char>>,
    m: Seq<char>,
    x: Seq<char>,
)
    requires
        level.contains(m),
        neighbors_of(adj, m).contains(x),
    ensures
        neighbors_of_all(adj, level).contains(x),
    decreases level.len(),
{
    if level.last() == m {
        lemma_contains_right(neighbors_of_all(adj, level.drop_last()), neighbors_of(adj, m), x);
    } else {
        let i = choose|i: int| 0 <= i < level.len() && level[i] == m;
        assert(level.drop_last()[i] == m);
        lemma_level_neighbors(adj, level.drop_last(), m, x);
        lemma_contains_left(neighbors_of_all(adj, level.drop_last()), neighbors_of(adj, level.last()), x);
    }
}

/// A neighbour of a node visited within `j` steps is visited within `j + 1`.
proof fn lemma_visit_neighbor(
    adj: Seq<(Seq<char>, Seq<Seq<char>>)>,
    start: Seq<char>,
    j: nat,
    m: Seq<char>,
    x: Seq<char>,
)
    requires
        walk_state(adj, start, j).0.contains(m),
        neighbors_of(adj, m).contains(x),
    ensures
        walk_state(adj, start, j + 1).0.contains(x),
    decreases j,
{
    let st = walk_state(adj, start, j);
    let next = walk_state(adj, start, j + 1);
    let n = fresh(neighbors_of_all(adj, st.1), st.0);
    assert(next.0 == st.0 + n);
    if st.1.contains(m) {
        lemma_level_neighbors(adj, st.1, m, x);
        lemma_fresh_keeps(neighbors_of_all(adj, st.1), st.0, x);
        if st.0.contains(x) {
            lemma_contains_left(st.0, n, x);
        } else {
            lemma_contains_right(st.0, n, x);
        }
    } else {
        if j == 0 {
            assert(st.0 =~= st.1);
        }
        let prev = walk_state(adj, start, (j - 1) as nat);
        assert(st.0 == prev.0 + st.1);
        lemma_contains_split(prev.0, st.1, m);
        lemma_visit_neighbor(adj, start, (j - 1) as nat, m, x);
        assert((j - 1) as nat + 1 == j);
        lemma_contains_left(st.0, n, x);
    }
}

/// The visited nodes only grow with the number of steps.
proof fn lemma_visited_grows(adj: Seq<(Seq<char>, Seq<Seq<char>>)>, start: Seq<char>, j: nat, k: nat, x: Seq<char>)
    requires
        j <= k,
        walk_state(adj, start, j).0.contains(x),
    ensures
        walk_state(adj, start, k).0.contains(x),
    decreases k - j,
{
    if j < k {
        lemma_visited_grows(adj, start, j, (k - 1) as nat, x);
        let prev = walk_state(adj, start, (k - 1) as nat);
        lemma_contains_left(prev.0, fresh(neighbors_of_all(adj, prev.1), prev.0), x);
    }
}

/// The last node of a path from `start` is visited within as many steps
/// as the path has.
proof fn lemma_path_visited(adj: Seq<(Seq<char>, Seq<Seq<char>>)>, start: Seq<char>, p: Seq<Seq<char>>)
    requires
        is_path(adj, p),
        p.len() >= 1,
        p[0] == start,
    ensures
        walk_state(adj, start, (p.len() - 1) as nat).0.contains(p.last()),
    decreases p.len(),
{
    if p.len() == 1 {
        assert(walk_state(adj, start, 0).0[0] == start);
    } else {
        let q = p.drop_last();
        assert forall|i: int| 0 <= i < q.len() - 1 implies #[trigger] neighbors_of(adj, q[i]).contains(
            q[i + 1],
        ) by {
            assert(neighbors_of(adj, p[i]).contains(p[i + 1]));
        }
        lemma_path_visited(adj, start, q);
        let i = p.len() - 2;
        assert(neighbors_of(adj, p[i]).contains(p[i + 1]));
        assert(p[i] == q.last() && p[i + 1] == p.last());
        lemma_visit_neighbor(adj, start, (q.len() - 1) as nat, q.last(), p.last());
        assert((q.len() - 1) as nat + 1 == (p.len() - 1) as nat);
    }
}

/// What can be reached within `k` steps is visited within `k` steps.
proof fn lemma_reachable_visited(adj: Seq<(Seq<char>, Seq<Seq<char>>)>, start: Seq<char>, n: Seq<char>, k: nat)
    requires
        reachable_within(adj, start, n, k),
    ensures
        walk_state(adj, start, k).0.contains(n),
{
    let p = choose|p: Seq<Seq<char>>|
        #[trigger] is_path(adj, p) && 1 <= p.len() <= k + 1 && p[0] == start && p.last() == n;
    lemma_path_visited(adj, start, p);
    lemma_visited_grows(adj, start, (p.len() - 1) as nat, k, n);
}

/// The nodes of a walk's visits are the nodes it has visited.
proof fn lemma_visit_nodes(adj: Seq<(Seq<char>, Seq<Seq<char>>)>, start: Seq<char>, d: usize)
    ensures
        walk_visits(adj, start, d).map_values(|v: (Seq<char>, usize)| v.0) == walk_state(adj, start, d as nat).0,
    decreases d,
{
    if d == 0 {
        assert(walk_visits(adj, start, d).map_values(|v: (Seq<char>, usize)| v.0) =~= seq![start]);
    } else {
        let k = (d - 1) as usize;
        lemma_visit_nodes(adj, start, k);
        let a = walk_visits(adj, start, k);
        let b = with_depth(walk_state(adj, start, d as nat).1, d);
        assert(k as nat == (d as nat - 1) as nat);
        assert((a + b).map_values(|v: (Seq<char>, usize)| v.0) =~= a.map_values(|v: (Seq<char>, usize)| v.0)
            + walk_state(adj, start, d as nat).1);
    }
}

/// A visit of a claim's node puts the claim among the claim visits.
proof fn lemma_claim_visit(nodes: Seq<GraphNode>, visits: Seq<(Seq<char>, usize)>, j: int, id: ClaimId)
    requires
        0 <= j < visits.len(),
        node_claim(nodes, visits[j].0) == Some(id),
    ensures
        exists|i: int|
            0 <= i < claim_visits(nodes, visits).len() && (#[trigger] claim_visits(nodes, visits)[i]).0 == id,
    decreases visits.len(),
{
    let r = claim_visits(nodes, visits.drop_last());
    if j == visits.len() - 1 {
        assert(claim_visits(nodes, visits)[r.len() as int].0 == id);
    } else {
        assert(visits.drop_last()[j] == visits[j]);
        lemma_claim_visit(nodes, visits.drop_last(), j, id);
        let i = choose|i: int| 0 <= i < r.len() && (#[trigger] r[i]).0 == id;
        match node_claim(nodes, visits.last().0) {
            Some(c) => {
                assert(claim_visits(nodes, visits) == r.push((c, visits.last().1)));
                assert(claim_visits(nodes, visits)[i] == r[i]);
            },
            None => {
                assert(claim_visits(nodes, visits) == r);
                assert(claim_visits(nodes, visits)[i] == r[i]);
            },
        }
    }
}

/// The claim visits of each start's walk are among the walk entries.
proof fn lemma_entries_include(
    nodes: Seq<GraphNode>,
    adj: Seq<(Seq<char>, Seq<Seq<char>>)>,
    starts: Seq<Seq<char>>,
    walk_depth: usize,
    t: int,
    id: ClaimId,
)
    requires
        0 <= t < starts.len(),
        exists|i: int|
            0 <= i < claim_visits(nodes, walk_visits(adj, starts[t], walk_depth)).len()
                && (#[trigger] claim_visits(nodes, walk_visits(adj, starts[t], walk_depth))[i]).0 == id,
    ensures
        exists|i: int|
            0 <= i < walk_entries(nodes, adj, starts, walk_depth).len()
                && (#[trigger] walk_entries(nodes, adj, starts, walk_depth)[i]).0 == id,
    decreases starts.len(),
{
    let a = walk_entries(nodes, adj, starts.drop_last(), walk_depth);
    let b = claim_visits(nodes, walk_visits(adj, starts.last(), walk_depth));
    assert(walk_entries(nodes, adj, starts, walk_depth) == a + b);
    if t == starts.len() - 1 {
        let i = choose|i: int| 0 <= i < b.len() && (#[trigger] b[i]).0 == id;
        assert((a + b)[a.len() + i] == b[i]);
    } else {
        assert(starts.drop_last()[t] == starts[t]);
        lemma_entries_include(nodes, adj, starts.drop_last(), walk_depth, t, id);
        let i = choose|i: int| 0 <= i < a.len() && (#[trigger] a[i]).0 == id;
        assert((a + b)[i] == a[i]);
    }
}

/// A node whose label mentions a query word is a start node.
proof fn lemma_start_node(nodes: Seq<GraphNode>, query: Seq<char>, s: int)
    requires
        0 <= s < nodes.len(),
        label_matches(nodes[s].label@, query),
    ensures
        start_nodes(nodes, query).contains(nodes[s].node_id@),
    decreases nodes.len(),
{
    let r = start_nodes(nodes.drop_last(), query);
    if s == nodes.len() - 1 {
        assert(r.push(nodes[s].node_id@)[r.len() as int] == nodes[s].node_id@);
    } else {
        assert(nodes.drop_last()[s] == nodes[s]);
        lemma_start_node(nodes.drop_last(), query, s);
        if label_matches(nodes.last().label@, query) {
            lemma_contains_left(r, seq![nodes.last().node_id@], nodes[s].node_id@);
            assert(r.push(nodes.last().node_id@) =~= r + seq![nodes.last().node_id@]);
        }
    }
}

/// Law: one query word is enough: a node whose lowercased label contains
/// any single word (of at least four bytes) of the lowercased query is a
/// start node of the walk, whatever the other query words are.
pub proof fn law_any_query_word_starts_walk(nodes: Seq<GraphNode>, query: Seq<char>, s: int, w: Seq<char>)
    requires
        0 <= s < nodes.len(),
        tokens(unicode_lowercase(query), 4).contains(w),
        has_sub(unicode_lowercase(nodes[s].label@), w),
    ensures
        label_matches(nodes[s].label@, query),
        start_nodes(nodes, query).contains(nodes[s].node_id@),
{
    let ws = tokens(unicode_lowercase(query), 4);
    let i = choose|i: int| 0 <= i < ws.len() && ws[i] == w;
    assert(has_sub(unicode_lowercase(nodes[s].label@), ws[i]));
    lemma_start_node(nodes, query, s);
}

/// Law: every claim whose node lies within `walk_depth` steps of a node
/// whose label mentions a word of the query is among the graph hits.
pub proof fn law_walk_reaches_connected_claims(
    nodes: Seq<GraphNode>,
    adj: Seq<(Seq<char>, Seq<Seq<char>>)>,
    query: Seq<char>,
    walk_depth: usize,
    s: int,
    n: Seq<char>,
    id: ClaimId,
)
    requires
        0 <= s < nodes.len(),
        label_matches(nodes[s].label@, query),
        reachable_within(adj, nodes[s].node_id@, n, walk_depth as nat),
        node_claim(nodes, n) == Some(id),
    ensures
        exists|k: int|
            0 <= k < graph_walk_hits(nodes, adj, query, walk_depth).len()
                && (#[trigger] graph_walk_hits(nodes, adj, query, walk_depth)[k]).0 == id,
{
    let start = nodes[s].node_id@;
    let starts = start_nodes(nodes, query);
    lemma_start_node(nodes, query, s);
    let t = choose|t: int| 0 <= t < starts.len() && starts[t] == start;
    lemma_reachable_visited(adj, start, n, walk_depth as nat);
    lemma_visit_nodes(adj, start, walk_depth);
    let visits = walk_visits(adj, start, walk_depth);
    let vn = walk_state(adj, start, walk_depth as nat).0;
    let j = choose|j: int| 0 <= j < vn.len() && vn[j] == n;
    assert(visits.map_values(|v: (Seq<char>, usize)| v.0)[j] == visits[j].0);
    lemma_claim_visit(nodes, visits, j, id);
    lemma_entries_include(nodes, adj, starts, walk_depth, t, id);
    let entries = walk_entries(nodes, adj, starts, walk_depth);
    let i = choose|i: int| 0 <= i < entries.len() && (#[trigger] entries[i]).0 == id;
    lemma_grouped_has(entries, i);
    let g = grouped(entries);
    assert(graph_walk_hits(nodes, adj, query, walk_depth) == g);
    let k = choose|k: int| 0 <= k < g.len() && (#[trigger] g[k]).0 == entries[i].0;
    assert(graph_walk_hits(nodes, adj, query, walk_depth)[k].0 == id);
}

fn node_claim_of(nodes: &Vec<GraphNode>, n: &Vec<char>) -> (r: Option<ClaimId>)
    ensures
        r == node_claim(nodes@, n@),
{
    let mut p = nodes.len();
    assert(nodes@.take(nodes.len() as int) =~= nodes@);
    while p > 0
        invariant
            p <= nodes.len(),
            node_claim(nodes@, n@) == node_claim(nodes@.take(p as int), n@),
        decreases p,
    {
        assert(nodes@.take(p as int).drop_last() =~= nodes@.take(p - 1));
        let node = &nodes[p - 1];
        let id = chars_of(node.node_id.as_str());
        if seq_eq(&id, n) {
            if str_eq(node.node_type.as_str(), "claim") {
                return match ClaimId::parse(node.external_ref.as_str()) {
                    Ok(c) => Some(c),
                    Err(_) => None,
                };
            }
            return None;
        }
        p = p - 1;
    }
    None
}

fn to_nodesets(adj: &Vec<Adjacent>) -> (r: Vec<NodeSet>)
    ensures
        nodesets_view(r@) == adjacency_view(adj@),
{
    let mut out: Vec<NodeSet> = Vec::new();
    let mut i: usize = 0;
    while i < adj.len()
        invariant
            i <= adj.len(),
            nodesets_view(out@) =~= adjacency_view(adj@).take(i as int),
        decreases adj.len() - i,
    {
        let nb = &adj[i].neighbors;
        let mut set: Vec<Vec<char>> = Vec::new();
        let mut j: usize = 0;
        while j < nb.len()
            invariant
                j <= nb.len(),
                chars_seq(set@) =~= texts(nb@).take(j as int),
            decreases nb.len() - j,
        {
            let ghost before = chars_seq(set@);
            set.push(chars_of(nb[j].as_str()));
            assert(chars_seq(set@) =~= before.push(nb@[j as int]@));
            j = j + 1;
        }
        assert(texts(nb@).take(nb.len() as int) =~= texts(nb@));
        let ghost before = nodesets_view(out@);
        out.push(NodeSet { node: chars_of(adj[i].node.as_str()), set });
        assert(nodesets_view(out@) =~= before.push(adjacency_view(adj@)[i as int]));
        i = i + 1;
    }
    assert(adjacency_view(adj@).take(adj.len() as int) =~= adjacency_view(adj@));
    out
}

/// The claims that a bounded walk of the graph reaches from the nodes whose
/// label mentions a word of the query, each with the depths at which it was
/// reached (see `graph_walk_hits`).
pub fn walk_graph(nodes: &Vec<GraphNode>, adjacency: &Vec<Adjacent>, query: &str, walk_depth: usize) -> (r:
    Vec<ClaimNumbers>)
    ensures
        group_view(r@) == graph_walk_hits(nodes@, adjacency_view(adjacency@), query@, walk_depth),
{
    let adj = to_nodesets(adjacency);
    let ghost av = adjacency_view(adjacency@);
    let mut groups: Vec<ClaimNumbers> = Vec::new();
    let ghost mut starts: Seq<Seq<char>> = Seq::empty();
    let mut i: usize = 0;
    while i < nodes.len()
        invariant
            i <= nodes.len(),
            av == nodesets_view(adj@),
            starts == start_nodes(nodes@.take(i as int), query@),
            group_view(groups@) == grouped(walk_entries(nodes@, av, starts, walk_depth)),
        decreases nodes.len() - i,
    {
        assert(nodes@.take(i + 1).drop_last() =~= nodes@.take(i as int));
        let node = &nodes[i];
        if contains_any_token(node.label.as_str(), query) {
            let start = chars_of(node.node_id.as_str());
            let visits = walk_from(&adj, &start, walk_depth);
            let ghost vv = visits@.map_values(|v: (Vec<char>, usize)| (v.0@, v.1));
            let ghost base = walk_entries(nodes@, av, starts, walk_depth);
            let mut k: usize = 0;
            while k < visits.len()
                invariant
                    k <= visits.len(),
                    vv == visits@.map_values(|v: (Vec<char>, usize)| (v.0@, v.1)),
                    group_view(groups@) == grouped(base + claim_visits(nodes@, vv.take(k as int))),
                decreases visits.len() - k,
            {
                assert(vv.take(k + 1).drop_last() =~= vv.take(k as int));
                assert(vv.take(k + 1).last() == (visits@[k as int].0@, visits@[k as int].1));
                let c = node_claim_of(nodes, &visits[k].0);
                match c {
                    Some(id) => {
                        let ghost prev = base + claim_visits(nodes@, vv.take(k as int));
                        add_to_groups(&mut groups, id, visits[k].1);
                        assert(base + claim_visits(nodes@, vv.take(k + 1)) =~= prev.push(
                            (id, visits@[k as int].1),
                        ));
                        assert(prev.push((id, visits@[k as int].1)).drop_last() =~= prev);
                    },
                    None => {},
                }
                k = k + 1;
            }
            assert(vv.take(visits.len() as int) =~= vv);
            proof {
                let old_starts = starts;
                starts = starts.push(start@);
                assert(starts.drop_last() =~= old_starts);
                assert(walk_entries(nodes@, av, starts, walk_depth) =~= base + claim_visits(
                    nodes@,
                    vv,
                ));
            }
        }
        i = i + 1;
    }
    assert(nodes@.take(nodes.len() as int) =~= nodes@);
    groups
}


// ---------------------------------------------------------------------------
// What claims, sources and pages contribute to the graph
// ---------------------------------------------------------------------------

/// A graph edge as it is stored (its weight is always 1).
#[derive(Clone, Debug)]
pub struct EdgeRecord {
    pub edge_id: String,
    pub from_node: String,
    pub to_node: String,
    pub edge_type: String,
}

/// The graph writes for one claim, source or page: its own node, one
/// concept node per concept word of its text, and an edge from it to each.
#[derive(Clone, Debug)]
pub struct GraphSync {
    pub node: GraphNode,
    pub concepts: Vec<GraphNode>,
    pub edges: Vec<EdgeRecord>,
}

pub open spec fn node_view(n: GraphNode) -> (Seq<char>, Seq<char>, Seq<char>, Seq<char>) {
    (n.node_id@, n.node_type@, n.external_ref@, n.label@)
}

pub open spec fn edge_view(e: EdgeRecord) -> (Seq<char>, Seq<char>, Seq<char>, Seq<char>) {
    (e.edge_id@, e.from_node@, e.to_node@, e.edge_type@)
}

/// The concept words of a text: alphanumeric runs of at least four bytes
/// of its lowercased form.
pub open spec fn concept_words(text: Seq<char>) -> Seq<Seq<char>> {
    tokens(unicode_lowercase(text), 4)
}

pub open spec fn concept_node_id(word: Seq<char>) -> Seq<char> {
    "concept:"@ + word
}

/// The graph writes for a node with the given fields whose text links to
/// its concepts by edges of type `edge_type`.
pub open spec fn graph_sync_of(
    node_id: Seq<char>,
    node_type: Seq<char>,
    external_ref: Seq<char>,
    label: Seq<char>,
    edge_type: Seq<char>,
    g: GraphSync,
) -> bool {
    let ws = concept_words(label);
    &&& node_view(g.node) == (node_id, node_type, external_ref, label)
    &&& g.concepts@.len() == ws.len()
    &&& g.edges@.len() == ws.len()
    &&& forall|i: int|
        0 <= i < ws.len() ==> node_view(#[trigger] g.concepts@[i]) == (
            concept_node_id(ws[i]),
            "concept"@,
            ws[i],
            ws[i],
        )
    &&& forall|i: int|
        0 <= i < ws.len() ==> edge_view(#[trigger] g.edges@[i]) == (
            node_id + ":"@ + edge_type + ":"@ + concept_node_id(ws[i]),
            node_id,
            concept_node_id(ws[i]),
            edge_type,
        )
}

fn concat2(a: &str, b: &str) -> (r: String)
    ensures
        r@ == a@ + b@,
{
    let mut s = owned(a);
    push_str(&mut s, b);
    s
}

fn concat3(a: &str, b: &str, c: &str) -> (r: String)
    ensures
        r@ == a@ + b@ + c@,
{
    let mut s = owned(a);
    push_str(&mut s, b);
    push_str(&mut s, c);
    s
}

/// The graph writes for a node whose text (its label) links to its concepts.
pub fn graph_sync(node_id: &str, node_type: &str, external_ref: &str, label: &str, edge_type: &str) -> (r:
    GraphSync)
    ensures
        graph_sync_of(node_id@, node_type@, external_ref@, label@, edge_type@, r),
{
    let ws = split_tokens(&lowercase_chars(&chars_of(label)), 4);
    let ghost wv = ws@.map_values(|t: Vec<char>| t@);
    let mut concepts: Vec<GraphNode> = Vec::new();
    let mut edges: Vec<EdgeRecord> = Vec::new();
    let prefix = concat3(node_id, ":", edge_type);
    let mut i: usize = 0;
    while i < ws.len()
        invariant
            i <= ws.len(),
            wv == ws@.map_values(|t: Vec<char>| t@),
            wv == concept_words(label@),
            prefix@ == node_id@ + ":"@ + edge_type@,
            concepts@.len() == i,
            edges@.len() == i,
            forall|k: int|
                0 <= k < i ==> node_view(#[trigger] concepts@[k]) == (
                    concept_node_id(wv[k]),
                    "concept"@,
                    wv[k],
                    wv[k],
                ),
            forall|k: int|
                0 <= k < i ==> edge_view(#[trigger] edges@[k]) == (
                    node_id@ + ":"@ + edge_type@ + ":"@ + concept_node_id(wv[k]),
                    node_id@,
                    concept_node_id(wv[k]),
                    edge_type@,
                ),
        decreases ws.len() - i,
    {
        let word = string_of(&ws[i]);
        assert(word@ == wv[i as int]);
        let concept = concat2("concept:", word.as_str());
        assert(concept@ =~= concept_node_id(wv[i as int]));
        let edge_id = concat3(prefix.as_str(), ":", concept.as_str());
        concepts.push(
            GraphNode {
                node_id: concept.clone(),
                node_type: owned("concept"),
                external_ref: word.clone(),
                label: word.clone(),
            },
        );
        edges.push(
            EdgeRecord {
                edge_id,
                from_node: owned(node_id),
                to_node: concept,
                edge_type: owned(edge_type),
            },
        );
        i = i + 1;
    }
    GraphSync {
        node: GraphNode {
            node_id: owned(node_id),
            node_type: owned(node_type),
            external_ref: owned(external_ref),
            label: owned(label),
        },
        concepts,
        edges,
    }
}

/// The graph writes for a claim: node `claim:<id>` of type `claim`,
/// labelled with the claim text, linked to its concepts by `mentions`.
pub fn claim_graph_sync(claim: &Claim) -> (r: GraphSync)
    ensures
        graph_sync_of(
            "claim:"@ + id_text(claim.id.0),
            "claim"@,
            id_text(claim.id.0),
            claim.text@,
            "mentions"@,
            r,
        ),
{
    let id = claim.id.to_string();
    let node_id = concat2("claim:", id.as_str());
    graph_sync(node_id.as_str(), "claim", id.as_str(), claim.text.as_str(), "mentions")
}

/// The graph writes for a source: node `source:<id>` of type `source`
/// referring to its URI, labelled with its content, linked to its concepts
/// by `derived_from`.
pub fn source_graph_sync(source_id: &str, uri: &str, content: &str) -> (r: GraphSync)
    ensures
        graph_sync_of("source:"@ + source_id@, "source"@, uri@, content@, "derived_from"@, r),
{
    let node_id = concat2("source:", source_id);
    graph_sync(node_id.as_str(), "source", uri, content, "derived_from")
}

/// The graph writes for a page: node `page:<slug>` of type `page`,
/// labelled with its title and body, linked to its concepts by `linked_to`.
pub fn page_graph_sync(slug: &str, title: &str, body: &str) -> (r: GraphSync)
    ensures
        graph_sync_of(
            "page:"@ + slug@,
            "page"@,
            slug@,
            title@ + " "@ + body@,
            "linked_to"@,
            r,
        ),
{
    let node_id = concat2("page:", slug);
    let label = concat3(title, " ", body);
    graph_sync(node_id.as_str(), "page", slug, label.as_str(), "linked_to")
}

} // verus!
