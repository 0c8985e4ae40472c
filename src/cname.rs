//! Related domains learned from CNAME chains: a breadth-first walk from the
//! queried name, bounded in depth and in how many names it collects.

use vstd::prelude::*;

use crate::bindings::{ascii_lowercase, lower_char, trim_dots, trim_trailing_dots, AnswerText};

verus! {

/// Chains are followed at most this many links from the origin.
pub const CNAME_CHAIN_LIMIT: usize = 8;

/// At most this many related names are kept per origin.
pub const CNAME_RELATION_LIMIT: usize = 32;

/// `v` is `origin` or is reached from it along at most `k` edges
/// (owner, target).
pub open spec fn reach(edges: Seq<(String, String)>, origin: Seq<char>, v: Seq<char>, k: nat) -> bool
    decreases k,
{
    v == origin || (k > 0 && exists|j: int|
        0 <= j < edges.len() && #[trigger] edges[j].1@ == v && reach(
            edges,
            origin,
            edges[j].0@,
            (k - 1) as nat,
        ))
}

proof fn lemma_reach_step(edges: Seq<(String, String)>, origin: Seq<char>, j: int, k: nat)
    requires
        0 <= j < edges.len(),
        reach(edges, origin, edges[j].0@, k),
    ensures
        reach(edges, origin, edges[j].1@, k + 1),
{
    assert(reach(edges, origin, edges[j].0@, ((k + 1) - 1) as nat));
}

proof fn lemma_reach_mono(edges: Seq<(String, String)>, origin: Seq<char>, v: Seq<char>, k: nat, k2: nat)
    requires
        reach(edges, origin, v, k),
        k <= k2,
    ensures
        reach(edges, origin, v, k2),
    decreases k,
{
    if v != origin {
        let j = choose|j: int|
            0 <= j < edges.len() && #[trigger] edges[j].1@ == v && reach(
                edges,
                origin,
                edges[j].0@,
                (k - 1) as nat,
            );
        lemma_reach_mono(edges, origin, edges[j].0@, (k - 1) as nat, (k2 - 1) as nat);
        lemma_reach_step(edges, origin, j, (k2 - 1) as nat);
    }
}

/// Names known to the walk: position `q` holds a name and the depth at which
/// it was found.
pub open spec fn holds(nodes: Seq<String>, depths: Seq<usize>, v: Seq<char>, bound: int) -> bool {
    exists|q: int| 0 <= q < nodes.len() && #[trigger] nodes[q]@ == v && depths[q] <= bound
}

proof fn lemma_complete(
    edges: Seq<(String, String)>,
    origin: Seq<char>,
    nodes: Seq<String>,
    depths: Seq<usize>,
    v: Seq<char>,
    k: nat,
)
    requires
        nodes.len() == depths.len(),
        nodes.len() >= 1,
        nodes[0]@ == origin,
        depths[0] == 0,
        forall|p: int, e: int|
            0 <= p < nodes.len() && depths[p] < CNAME_CHAIN_LIMIT && 0 <= e < edges.len()
                && #[trigger] edges[e].0@ == #[trigger] nodes[p]@ ==> holds(
                nodes,
                depths,
                edges[e].1@,
                depths[p] + 1,
            ),
        reach(edges, origin, v, k),
        k <= CNAME_CHAIN_LIMIT,
    ensures
        holds(nodes, depths, v, k as int),
    decreases k,
{
    if v == origin {
        assert(nodes[0]@ == v);
    } else {
        let j = choose|j: int|
            0 <= j < edges.len() && #[trigger] edges[j].1@ == v && reach(
                edges,
                origin,
                edges[j].0@,
                (k - 1) as nat,
            );
        lemma_complete(edges, origin, nodes, depths, edges[j].0@, (k - 1) as nat);
        let p = choose|q: int|
            0 <= q < nodes.len() && #[trigger] nodes[q]@ == edges[j].0@ && depths[q] <= k - 1;
        assert(edges[j].0@ == nodes[p]@);
        let q = choose|q: int|
            0 <= q < nodes.len() && #[trigger] nodes[q]@ == edges[j].1@ && depths[q] <= depths[p]
                + 1;
        assert(nodes[q]@ == v && depths[q] <= k);
    }
}

/// Names as text.
pub open spec fn node_views(nodes: Seq<String>) -> Seq<Seq<char>> {
    nodes.map_values(|s: String| s@)
}

pub open spec fn depth_ints(depths: Seq<usize>) -> Seq<int> {
    depths.map_values(|d: usize| d as int)
}

/// The breadth-first walk as a queue machine: `nodes` are the names found
/// so far (the origin first) with their `depths`; the name at `head` is
/// being expanded along edge `e`. A link from it to a name not yet found
/// appends that name one level deeper; names at the chain limit are not
/// expanded; the walk stops once `CNAME_RELATION_LIMIT` names besides the
/// origin are found or the queue is exhausted. Yields all names found.
pub open spec fn bfs_walk(
    edges: Seq<(Seq<char>, Seq<char>)>,
    nodes: Seq<Seq<char>>,
    depths: Seq<int>,
    head: int,
    e: int,
) -> Seq<Seq<char>>
    decreases (CNAME_RELATION_LIMIT + 2 - head) as nat, (edges.len() - e) as nat,
{
    if head < 0 || e < 0 || nodes.len() > CNAME_RELATION_LIMIT || head >= nodes.len() || head
        >= depths.len() {
        nodes
    } else if depths[head] >= CNAME_CHAIN_LIMIT || e >= edges.len() {
        bfs_walk(edges, nodes, depths, head + 1, 0)
    } else if edges[e].0 == nodes[head] && !nodes.contains(edges[e].1) {
        bfs_walk(edges, nodes.push(edges[e].1), depths.push(depths[head] + 1), head, e + 1)
    } else {
        bfs_walk(edges, nodes, depths, head, e + 1)
    }
}

/// Names related to `origin` through `edges`, in breadth-first order: the
/// walk from the origin alone, without the origin.
pub open spec fn bfs_related(edges: Seq<(Seq<char>, Seq<char>)>, origin: Seq<char>) -> Seq<Seq<char>> {
    bfs_walk(edges, seq![origin], seq![0int], 0, 0).drop_first()
}

/// Names reached from `origin` through `edges` (owner, target) in
/// breadth-first order, each once, never `origin` itself, at most
/// `CNAME_RELATION_LIMIT` of them, each within `CNAME_CHAIN_LIMIT` links.
/// Unless the limit on their number was reached, every such name is there.
pub fn cname_related(origin: &String, edges: &Vec<(String, String)>) -> (r: Vec<String>)
    ensures
        node_views(r@) == bfs_related(edge_views(edges@), origin@),
        r@.len() <= CNAME_RELATION_LIMIT,
        forall|i: int, j: int| 0 <= i < j < r@.len() ==> r@[i]@ != r@[j]@,
        forall|i: int|
            0 <= i < r@.len() ==> r@[i]@ != origin@ && reach(
                edges@,
                origin@,
                #[trigger] r@[i]@,
                CNAME_CHAIN_LIMIT as nat,
            ),
        r@.len() < CNAME_RELATION_LIMIT ==> forall|v: Seq<char>|
            v != origin@ && #[trigger] reach(edges@, origin@, v, CNAME_CHAIN_LIMIT as nat) ==> exists|
                i: int,
            |
                0 <= i < r@.len() && #[trigger] r@[i]@ == v,
{
    let mut nodes: Vec<String> = Vec::new();
    let mut depths: Vec<usize> = Vec::new();
    let mut related: Vec<String> = Vec::new();
    nodes.push(origin.clone());
    depths.push(0);
    let mut head: usize = 0;
    let mut full = false;
    let ghost ev = edge_views(edges@);
    let ghost goal = bfs_walk(ev, seq![origin@], seq![0int], 0, 0);
    proof {
        assert(node_views(nodes@) =~= seq![origin@]);
        assert(depth_ints(depths@) =~= seq![0int]);
    }
    while head < nodes.len() && !full
        invariant
            ev == edge_views(edges@),
            goal == bfs_walk(ev, seq![origin@], seq![0int], 0, 0),
            goal == bfs_walk(ev, node_views(nodes@), depth_ints(depths@), head as int, 0),
            full ==> nodes@.len() == CNAME_RELATION_LIMIT + 1,
            nodes@.len() == depths@.len(),
            nodes@.len() == related@.len() + 1,
            nodes@[0]@ == origin@,
            depths@[0] == 0,
            forall|i: int| 0 <= i < related@.len() ==> #[trigger] related@[i] == nodes@[i + 1],
            forall|i: int, j: int| 0 <= i < j < nodes@.len() ==> nodes@[i]@ != nodes@[j]@,
            forall|i: int|
                0 <= i < nodes@.len() ==> #[trigger] depths@[i] <= CNAME_CHAIN_LIMIT && reach(
                    edges@,
                    origin@,
                    nodes@[i]@,
                    depths@[i] as nat,
                ),
            forall|i: int, j: int| 0 <= i < j < nodes@.len() ==> depths@[i] <= depths@[j],
            head <= nodes@.len(),
            head == 0 ==> nodes@.len() == 1,
            head > 0 ==> forall|i: int| 0 <= i < nodes@.len() ==> #[trigger] depths@[i] <= depths@[head - 1] + 1,
            !full ==> forall|p: int, e: int|
                0 <= p < head && depths@[p] < CNAME_CHAIN_LIMIT && 0 <= e < edges@.len()
                    && #[trigger] edges@[e].0@ == #[trigger] nodes@[p]@ ==> holds(
                    nodes@,
                    depths@,
                    edges@[e].1@,
                    depths@[p] + 1,
                ),
            related@.len() <= CNAME_RELATION_LIMIT,
            !full ==> related@.len() < CNAME_RELATION_LIMIT,
            full ==> related@.len() >= CNAME_RELATION_LIMIT,
        decreases CNAME_RELATION_LIMIT + 2 - head,
    {
        let d = depths[head];
        let ghost cur = nodes@[head as int]@;
        head = head + 1;
        if d < CNAME_CHAIN_LIMIT {
            let mut e: usize = 0;
            while e < edges.len() && !full
                invariant
                    ev == edge_views(edges@),
                    goal == bfs_walk(ev, node_views(nodes@), depth_ints(depths@), head - 1, e as int),
                    full ==> nodes@.len() == CNAME_RELATION_LIMIT + 1,
                    head >= 1,
                    head <= nodes@.len(),
                    d == depths@[head - 1],
                    d < CNAME_CHAIN_LIMIT,
                    cur == nodes@[head - 1]@,
                    e <= edges@.len(),
                    nodes@.len() == depths@.len(),
                    nodes@.len() == related@.len() + 1,
                    nodes@[0]@ == origin@,
                    depths@[0] == 0,
                    forall|i: int| 0 <= i < related@.len() ==> #[trigger] related@[i] == nodes@[i + 1],
                    forall|i: int, j: int| 0 <= i < j < nodes@.len() ==> nodes@[i]@ != nodes@[j]@,
                    forall|i: int|
                        0 <= i < nodes@.len() ==> #[trigger] depths@[i] <= CNAME_CHAIN_LIMIT && reach(
                            edges@,
                            origin@,
                            nodes@[i]@,
                            depths@[i] as nat,
                        ),
                    forall|i: int, j: int| 0 <= i < j < nodes@.len() ==> depths@[i] <= depths@[j],
                    forall|i: int| 0 <= i < nodes@.len() ==> #[trigger] depths@[i] <= d + 1,
                    forall|p: int, x: int|
                        0 <= p < head - 1 && depths@[p] < CNAME_CHAIN_LIMIT && 0 <= x < edges@.len()
                            && #[trigger] edges@[x].0@ == #[trigger] nodes@[p]@ ==> holds(
                            nodes@,
                            depths@,
                            edges@[x].1@,
                            depths@[p] + 1,
                        ),
                    forall|x: int|
                        0 <= x < e && #[trigger] edges@[x].0@ == cur ==> holds(
                            nodes@,
                            depths@,
                            edges@[x].1@,
                            d + 1,
                        ),
                    related@.len() <= CNAME_RELATION_LIMIT,
                    !full ==> related@.len() < CNAME_RELATION_LIMIT,
                    full ==> related@.len() >= CNAME_RELATION_LIMIT,
                decreases edges@.len() - e,
            {
                let ghost old_nodes = nodes@;
                let ghost old_depths = depths@;
                if edges[e].0 == nodes[head - 1] {
                    let t = &edges[e].1;
                    let mut q: usize = 0;
                    let mut known = false;
                    while q < nodes.len()
                        invariant
                            q <= nodes@.len(),
                            !known ==> forall|i: int| 0 <= i < q ==> nodes@[i]@ != t@,
                            known ==> holds(nodes@, depths@, t@, d + 1),
                            forall|i: int| 0 <= i < nodes@.len() ==> #[trigger] depths@[i] <= d + 1,
                        decreases nodes@.len() - q,
                    {
                        if !known && nodes[q] == *t {
                            known = true;
                            proof {
                                assert(nodes@[q as int]@ == t@);
                            }
                        }
                        q = q + 1;
                    }
                    proof {
                        assert(ev[e as int] == (edges@[e as int].0@, t@));
                        assert(node_views(nodes@)[head - 1] == nodes@[head - 1]@);
                        if known {
                            let w = choose|w: int|
                                0 <= w < nodes@.len() && #[trigger] nodes@[w]@ == t@ && depths@[w] <= d + 1;
                            assert(node_views(nodes@)[w] == t@);
                        } else {
                            assert(!node_views(nodes@).contains(t@)) by {
                                if node_views(nodes@).contains(t@) {
                                    let i = choose|i: int| 0 <= i < node_views(nodes@).len() && node_views(nodes@)[i] == t@;
                                    assert(nodes@[i]@ == t@);
                                }
                            }
                        }
                    }
                    if !known {
                        proof {
                            lemma_reach_step(edges@, origin@, e as int, d as nat);
                        }
                        nodes.push(t.clone());
                        depths.push(d + 1);
                        related.push(t.clone());
                        proof {
                            assert(node_views(nodes@) =~= node_views(old_nodes).push(t@));
                            assert(depth_ints(depths@) =~= depth_ints(old_depths).push(d + 1));
                            assert(nodes@[nodes@.len() - 1]@ == t@);
                            assert(holds(nodes@, depths@, t@, d + 1));
                            assert forall|p: int, x: int|
                                0 <= p < head - 1 && depths@[p] < CNAME_CHAIN_LIMIT && 0 <= x
                                    < edges@.len() && #[trigger] edges@[x].0@ == #[trigger] nodes@[p]@ implies holds(
                                nodes@,
                                depths@,
                                edges@[x].1@,
                                depths@[p] + 1,
                            ) by {
                                assert(old_nodes[p] == nodes@[p]);
                                let w = choose|w: int|
                                    0 <= w < old_nodes.len() && #[trigger] old_nodes[w]@ == edges@[x].1@
                                        && old_depths[w] <= depths@[p] + 1;
                                assert(nodes@[w] == old_nodes[w]);
                            }
                            assert forall|x: int|
                                0 <= x < e && #[trigger] edges@[x].0@ == cur implies holds(
                                nodes@,
                                depths@,
                                edges@[x].1@,
                                d + 1,
                            ) by {
                                let w = choose|w: int|
                                    0 <= w < old_nodes.len() && #[trigger] old_nodes[w]@ == edges@[x].1@
                                        && old_depths[w] <= d + 1;
                                assert(nodes@[w] == old_nodes[w]);
                            }
                        }
                        if related.len() >= CNAME_RELATION_LIMIT {
                            full = true;
                        }
                    }
                }
                e = e + 1;
            }
            proof {
                if !full {
                    assert forall|p: int, x: int|
                        0 <= p < head && depths@[p] < CNAME_CHAIN_LIMIT && 0 <= x < edges@.len()
                            && #[trigger] edges@[x].0@ == #[trigger] nodes@[p]@ implies holds(
                        nodes@,
                        depths@,
                        edges@[x].1@,
                        depths@[p] + 1,
                    ) by {
                        if p == head - 1 {
                            assert(edges@[x].0@ == cur);
                        }
                    }
                }
            }
        }
    }
    proof {
        assert(goal == node_views(nodes@));
        assert(node_views(related@) =~= node_views(nodes@).drop_first());
        if related@.len() < CNAME_RELATION_LIMIT {
            assert forall|v: Seq<char>|
                v != origin@ && #[trigger] reach(edges@, origin@, v, CNAME_CHAIN_LIMIT as nat) implies exists|
                i: int,
            |
                0 <= i < related@.len() && #[trigger] related@[i]@ == v by {
                lemma_complete(edges@, origin@, nodes@, depths@, v, CNAME_CHAIN_LIMIT as nat);
                let q = choose|q: int|
                    0 <= q < nodes@.len() && #[trigger] nodes@[q]@ == v && depths@[q] <= CNAME_CHAIN_LIMIT;
                assert(q != 0);
                assert(related@[q - 1] == nodes@[q]);
            }
        }
        assert forall|i: int| 0 <= i < related@.len() implies related@[i]@ != origin@ && reach(
            edges@,
            origin@,
            #[trigger] related@[i]@,
            CNAME_CHAIN_LIMIT as nat,
        ) by {
            assert(related@[i] == nodes@[i + 1]);
            lemma_reach_mono(edges@, origin@, nodes@[i + 1]@, depths@[i + 1] as nat, CNAME_CHAIN_LIMIT as nat);
        }
    }
    related
}


/// A domain name compared as the walk compares them: trailing dots dropped,
/// ASCII-lowercased.
pub open spec fn normalized(s: Seq<char>) -> Seq<char> {
    trim_dots(s).map_values(|c: char| lower_char(c))
}

pub fn normalize_domain_str(domain: &str) -> (r: String)
    ensures
        r@ == normalized(domain@),
{
    let trimmed = trim_trailing_dots(domain);
    ascii_lowercase(trimmed.as_str())
}

/// Record type code of CNAME.
pub const RTYPE_CNAME: u16 = 5;

/// The CNAME links among answers given as (type, owner, CNAME target), in
/// order, with both names normalized; a link from a name to itself is left
/// out.
pub open spec fn cname_edges_of(texts: Seq<AnswerText>) -> Seq<(Seq<char>, Seq<char>)>
    decreases texts.len(),
{
    if texts.len() == 0 {
        Seq::empty()
    } else {
        let rest = cname_edges_of(texts.drop_last());
        let (ty, owner, target) = texts.last();
        match target {
            Some(t) if ty == RTYPE_CNAME && normalized(owner@) != normalized(t@) => rest.push(
                (normalized(owner@), normalized(t@)),
            ),
            _ => rest,
        }
    }
}

pub open spec fn edge_views(edges: Seq<(String, String)>) -> Seq<(Seq<char>, Seq<char>)> {
    edges.map_values(|e: (String, String)| (e.0@, e.1@))
}

pub fn cname_edges(texts: &Vec<AnswerText>) -> (r: Vec<(String, String)>)
    ensures
        edge_views(r@) == cname_edges_of(texts@),
{
    let mut edges: Vec<(String, String)> = Vec::new();
    let mut i: usize = 0;
    while i < texts.len()
        invariant
            i <= texts@.len(),
            edge_views(edges@) == cname_edges_of(texts@.subrange(0, i as int)),
        decreases texts@.len() - i,
    {
        let ghost before = edges@;
        let (ty, owner, target) = &texts[i];
        if *ty == RTYPE_CNAME {
            if let Some(t) = target {
                let o = normalize_domain_str(owner.as_str());
                let n = normalize_domain_str(t.as_str());
                if o != n {
                    edges.push((o, n));
                    proof {
                        assert(edge_views(edges@) =~= edge_views(before).push((o@, n@)));
                    }
                }
            }
        }
        i = i + 1;
        proof {
            let sub = texts@.subrange(0, i as int);
            assert(sub.drop_last() =~= texts@.subrange(0, i - 1));
            assert(sub.last() == texts@[i - 1]);
        }
    }
    proof {
        assert(texts@.subrange(0, texts@.len() as int) =~= texts@);
    }
    edges
}

/// The related names learned from answers given as (type, owner, CNAME
/// target) for a query of `origin`: the first `CNAME_RELATION_LIMIT` names
/// in breadth-first order (`bfs_related`) over `cname_edges_of`, from the
/// normalized origin, each within `CNAME_CHAIN_LIMIT` links.
pub fn cdn_relations_of(origin: &str, texts: &Vec<AnswerText>) -> (r: Vec<String>)
    ensures
        node_views(r@) == bfs_related(cname_edges_of(texts@), normalized(origin@)),
        r@.len() <= CNAME_RELATION_LIMIT,
        forall|i: int, j: int| 0 <= i < j < r@.len() ==> r@[i]@ != r@[j]@,
        exists|edges: Seq<(String, String)>|
            edge_views(edges) == cname_edges_of(texts@) && (forall|i: int|
                0 <= i < r@.len() ==> r@[i]@ != normalized(origin@) && reach(
                    edges,
                    normalized(origin@),
                    #[trigger] r@[i]@,
                    CNAME_CHAIN_LIMIT as nat,
                )) && (r@.len() < CNAME_RELATION_LIMIT ==> forall|v: Seq<char>|
                v != normalized(origin@) && #[trigger] reach(
                    edges,
                    normalized(origin@),
                    v,
                    CNAME_CHAIN_LIMIT as nat,
                ) ==> exists|i: int| 0 <= i < r@.len() && #[trigger] r@[i]@ == v),
{
    let o = normalize_domain_str(origin);
    let edges = cname_edges(texts);
    cname_related(&o, &edges)
}

} // verus!
