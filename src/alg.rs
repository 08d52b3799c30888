//! Shortest paths over a graph, and the cost of a path.

use crate::frontier::{
    frontier_change_priority, frontier_get, frontier_is_empty, frontier_items, frontier_new,
    frontier_pop, frontier_push,
};
use crate::graph::{equal_values, weight_to, Edge, EdgeView, Graph, GraphView, Node, NodeRcWrapper};
use vstd::laws_eq::obeys_concrete_eq;
use vstd::prelude::*;

verus! {

/// Why `find_path` found no path.
#[derive(Debug)]
pub enum AlgorithmError {
    /// The frontier was empty where a node was to be taken from it.
    CannotFindClosestNode,
    /// No path: the text says why.
    CannotFindPath(String),
}

/// The distance of a node that the query has not reached.
pub const UNREACHED: u128 = u128::MAX;

/// The largest weight of one edge.
pub const MAX_WEIGHT: u128 = 0xffff_ffff;

/// The priority of a node at `distance`: the nearer, the higher.
pub open spec fn priority_of(distance: u128) -> u128 {
    (UNREACHED - distance) as u128
}

/// Appends the handles of `src` to `dst`.
fn append_all(dst: &mut Vec<NodeRcWrapper>, src: &Vec<NodeRcWrapper>)
    ensures
        final(dst)@ == old(dst)@ + src@,
{
    let mut j: usize = 0;
    while j < src.len()
        invariant
            j <= src@.len(),
            dst@ == old(dst)@ + src@.subrange(0, j as int),
        decreases src.len() - j,
    {
        dst.push(src[j]);
        j = j + 1;
        assert(src@.subrange(0, j as int) =~= src@.subrange(0, j - 1).push(src@[j - 1]));
    }
    assert(src@.subrange(0, src@.len() as int) =~= src@);
}

/// A walk extended by an edge from its last node is a walk.
proof fn lemma_walk_push<T>(g: GraphView<T>, path: Seq<NodeRcWrapper>, next: NodeRcWrapper)
    requires
        g.is_walk(path),
        g.has_edge(path.last().0, next.0),
    ensures
        g.is_walk(path.push(next)),
        path.push(next).last() == next,
        path.push(next)[0] == path[0],
{
    let p = path.push(next);
    assert forall|i: int| 0 <= i < p.len() - 1 implies #[trigger] g.has_edge(p[i].0, p[i + 1].0) by {
        if i < path.len() - 1 {
            assert(g.has_edge(path[i].0, path[i + 1].0));
        }
    }
}

/// The nodes at a finite distance form a set that holds the first node of
/// `path` and that every edge leaving it leads back into: then every node of
/// the walk `path` up to `j` is at a finite distance.
proof fn lemma_walk_stays_reached<T>(
    g: GraphView<T>,
    dist: Seq<u128>,
    path: Seq<NodeRcWrapper>,
    j: int,
)
    requires
        g.is_walk(path),
        0 <= j < path.len(),
        dist.len() == g.nodes.len(),
        dist[path[0].0 as int] != UNREACHED,
        forall|i: int, k: int|
            0 <= i < g.nodes.len() && dist[i] != UNREACHED && 0 <= k < g.nodes[i].edges.len()
                && #[trigger] g.nodes[i].edges[k].target < g.nodes.len() ==> dist[g.nodes[i].edges[
                k
            ].target as int] != UNREACHED,
    ensures
        dist[path[j].0 as int] != UNREACHED,
    decreases j,
{
    if j > 0 {
        lemma_walk_stays_reached(g, dist, path, j - 1);
        let i = j - 1;
        assert(g.has_edge(path[i].0, path[i + 1].0));
        let k = choose|k: int|
            0 <= k < g.nodes[path[j - 1].0 as int].edges.len()
                && #[trigger] g.nodes[path[j - 1].0 as int].edges[k].target == path[j].0;
        assert(g.nodes[path[j - 1].0 as int].edges[k].target < g.nodes.len());
    }
}

/// Where the nodes at a finite distance hold the node of `start` and not that
/// of `end`, and every edge leaving one leads to another, no walk leads from
/// `start` to `end`.
proof fn lemma_no_path<T>(g: GraphView<T>, dist: Seq<u128>, s: int, e: int, start: T, end: T)
    requires
        g.wf(),
        0 <= s < g.nodes.len(),
        0 <= e < g.nodes.len(),
        g.nodes[s].value == start,
        g.nodes[e].value == end,
        dist.len() == g.nodes.len(),
        dist[s] != UNREACHED,
        dist[e] == UNREACHED,
        forall|i: int, k: int|
            0 <= i < g.nodes.len() && dist[i] != UNREACHED && 0 <= k < g.nodes[i].edges.len()
                && #[trigger] g.nodes[i].edges[k].target < g.nodes.len() ==> dist[g.nodes[i].edges[
                k
            ].target as int] != UNREACHED,
    ensures
        !g.path_exists(start, end),
{
    if g.path_exists(start, end) {
        let path = choose|path: Seq<NodeRcWrapper>|
            #[trigger] g.is_walk(path) && g.nodes[path[0].0 as int].value == start
                && g.nodes[path.last().0 as int].value == end;
        assert(path[0].0 < g.nodes.len());
        assert(path[path.len() - 1].0 < g.nodes.len());
        assert(path[0].0 as int == s);
        assert(path.last().0 as int == e);
        lemma_walk_stays_reached(g, dist, path, path.len() - 1);
    }
}

/// Distances stay below `UNREACHED`: `(pops + 1)` weights fit in a `u128`.
proof fn lemma_distance_bound(pops: int, n: int)
    requires
        0 <= pops < n,
        n <= usize::MAX,
    ensures
        (pops + 1) * MAX_WEIGHT < UNREACHED,
        pops * MAX_WEIGHT + MAX_WEIGHT == (pops + 1) * MAX_WEIGHT,
{
    assert((pops + 1) * MAX_WEIGHT <= 0x1_0000_0000_0000_0000 * MAX_WEIGHT) by (nonlinear_arith)
        requires
            pops + 1 <= 0x1_0000_0000_0000_0000,
    ;
    assert(pops * MAX_WEIGHT + MAX_WEIGHT == (pops + 1) * MAX_WEIGHT) by (nonlinear_arith);
}

/// `r` is a `CannotFindPath` error that gives `reason`.
pub open spec fn fails_with(r: Result<Vec<NodeRcWrapper>, AlgorithmError>, reason: &str) -> bool {
    r matches Err(AlgorithmError::CannotFindPath(m)) && m@ == reason@
}

/// The handles of the path `[start] + prefix + [last]`.
fn assemble(start: usize, prefix: &Vec<NodeRcWrapper>, last: usize) -> (r: Vec<NodeRcWrapper>)
    ensures
        r@ == (seq![NodeRcWrapper(start)] + prefix@).push(NodeRcWrapper(last)),
{
    let mut r: Vec<NodeRcWrapper> = Vec::new();
    r.push(NodeRcWrapper(start));
    append_all(&mut r, prefix);
    r.push(NodeRcWrapper(last));
    r
}

/// A path from the node holding `start` to the node holding `end`.
///
/// The query runs Dijkstra's algorithm over a table of distances and paths
/// made fresh for this call, so no state passes from one query to the next:
/// the nodes' own `distance` and `path` are neither read nor written. The
/// frontier is a priority queue of every node, nearest first. From each node
/// taken from it, each edge is followed in turn: an edge to `end` ends the
/// query with the path to that node followed by `end`; an edge to a node still
/// in the frontier lowers that node's distance and path where it makes them
/// shorter. When the nearest node left has not been reached, nothing left
/// can be, and the query fails.
///
/// It fails, in this order of checks, where the graph has no nodes, where
/// `start` equals `end`, where no node holds `end`, where no node holds
/// `start`, and where no walk leads from `start` to `end`.
pub fn find_path<T: PartialEq>(graph: &Graph<T>, start: &T, end: &T) -> (r: Result<
    Vec<NodeRcWrapper>,
    AlgorithmError,
>)
    requires
        graph@.wf(),
        obeys_concrete_eq::<T>(),
    ensures
        r is Ok <==> *start != *end && graph@.path_exists(*start, *end),
        r matches Ok(path) ==> {
            &&& graph@.is_walk(path@)
            &&& graph@.nodes[path@[0].0 as int].value == *start
            &&& graph@.nodes[path@.last().0 as int].value == *end
        },
        !(r matches Err(AlgorithmError::CannotFindClosestNode)),
        *start == *end ==> r matches Err(AlgorithmError::CannotFindPath(_)),
        !graph@.contains_value(*start) || !graph@.contains_value(*end) ==> r matches Err(
            AlgorithmError::CannotFindPath(_),
        ),
        graph@.nodes.len() == 0 ==> fails_with(r, "No nodes exist in graph"),
        graph@.nodes.len() > 0 && *start == *end ==> fails_with(
            r,
            "Start and end nodes are the same",
        ),
        graph@.nodes.len() > 0 && *start != *end && !graph@.contains_value(*end) ==> fails_with(
            r,
            "End node does not exist in graph",
        ),
        graph@.nodes.len() > 0 && *start != *end && graph@.contains_value(*end)
            && !graph@.contains_value(*start) ==> fails_with(
            r,
            "Start node does not exist in graph",
        ),
        graph@.contains_value(*start) && graph@.contains_value(*end) && *start != *end
            && !graph@.path_exists(*start, *end) ==> fails_with(r, "No path found"),
{
    let ghost g = graph@;
    let nodes = graph.get_nodes();
    let n = nodes.len();
    if n == 0 {
        return Err(AlgorithmError::CannotFindPath("No nodes exist in graph".to_owned()));
    }
    if equal_values(start, end) {
        return Err(AlgorithmError::CannotFindPath("Start and end nodes are the same".to_owned()));
    }
    let e = match graph.get_node(end) {
        Some(h) => h.0,
        None => {
            return Err(AlgorithmError::CannotFindPath("End node does not exist in graph".to_owned()));
        },
    };
    let s = match graph.get_node(start) {
        Some(h) => h.0,
        None => {
            return Err(
                AlgorithmError::CannotFindPath("Start node does not exist in graph".to_owned()),
            );
        },
    };
    proof {
        assert(g.nodes[s as int].value != g.nodes[e as int].value);
    }
    // The table of this query: the start is at distance 0, every other node unreached.
    let mut dist: Vec<u128> = Vec::new();
    let mut paths: Vec<Vec<NodeRcWrapper>> = Vec::new();
    let mut i: usize = 0;
    while i < n
        invariant
            i <= n,
            dist@.len() == i,
            paths@.len() == i,
            forall|j: int| 0 <= j < i ==> dist@[j] == if j == s { 0 } else { UNREACHED },
            forall|j: int| 0 <= j < i ==> paths@[j]@ == Seq::<NodeRcWrapper>::empty(),
        decreases n - i,
    {
        dist.push(if i == s { 0 } else { UNREACHED });
        paths.push(Vec::new());
        i = i + 1;
    }
    let mut q = frontier_new();
    let mut i: usize = 0;
    while i < n
        invariant
            i <= n,
            dist@.len() == n,
            frontier_items(q).dom().finite(),
            frontier_items(q).dom().len() == i,
            forall|j: usize| #[trigger] frontier_items(q).contains_key(j) <==> j < i,
            forall|j: usize|
                #[trigger] frontier_items(q).contains_key(j) ==> frontier_items(q)[j]
                    == priority_of(dist@[j as int]),
        decreases n - i,
    {
        proof {
            assert(!frontier_items(q).dom().contains(i));
        }
        frontier_push(&mut q, i, UNREACHED - dist[i]);
        i = i + 1;
    }
    let ghost mut pops: int = 0;
    while !frontier_is_empty(&q)
        invariant
            g == graph@,
            g.wf(),
            n == g.nodes.len(),
            nodes@.map_values(|v: Node<T>| v@) == g.nodes,
            s < n,
            e < n,
            s != e,
            g.nodes[s as int].value == *start,
            g.nodes[e as int].value == *end,
            dist@.len() == n,
            paths@.len() == n,
            dist@[s as int] == 0,
            paths@[s as int]@ == Seq::<NodeRcWrapper>::empty(),
            dist@[e as int] == UNREACHED,
            forall|j: int|
                0 <= j < n && #[trigger] dist@[j] != UNREACHED ==> {
                    &&& g.is_walk(seq![NodeRcWrapper(s)] + paths@[j]@)
                    &&& (seq![NodeRcWrapper(s)] + paths@[j]@).last().0 == j
                    &&& dist@[j] <= pops * MAX_WEIGHT
                },
            forall|j: usize| #[trigger]
                frontier_items(q).contains_key(j) ==> j < n && frontier_items(q)[j]
                    == priority_of(dist@[j as int]),
            forall|j: int|
                0 <= j < n && !frontier_items(q).contains_key(j as usize) ==> #[trigger] dist@[j]
                    != UNREACHED,
            forall|j: int, k: int|
                0 <= j < n && !frontier_items(q).contains_key(j as usize) && 0 <= k
                    < g.nodes[j].edges.len() ==> {
                    let t = #[trigger] g.nodes[j].edges[k].target;
                    &&& t != e
                    &&& t < n ==> dist@[t as int] != UNREACHED
                },
            frontier_items(q).dom().finite(),
            frontier_items(q).dom().len() + pops == n,
        decreases frontier_items(q).dom().len(),
    {
        let ghost waiting = frontier_items(q);
        let (c, _) = match frontier_pop(&mut q) {
            Some(item) => item,
            None => {
                return Err(AlgorithmError::CannotFindClosestNode);
            },
        };
        let dc = dist[c];
        if dc == UNREACHED {
            // The nearest node left is unreached: so is every node left.
            proof {
                assert forall|j: int| 0 <= j < n && dist@[j] != UNREACHED implies !frontier_items(
                    q,
                ).contains_key(j as usize) by {
                    if frontier_items(q).contains_key(j as usize) {
                        assert(waiting.contains_key(j as usize));
                    }
                }
                lemma_no_path(g, dist@, s as int, e as int, *start, *end);
            }
            return Err(AlgorithmError::CannotFindPath("No path found".to_owned()));
        }
        proof {
            pops = pops + 1;
            lemma_distance_bound(pops - 1, n as int);
        }
        let edges = nodes[c].get_edges();
        let mut k: usize = 0;
        while k < edges.len()
            invariant
                g == graph@,
                g.wf(),
                n == g.nodes.len(),
                nodes@.map_values(|v: Node<T>| v@) == g.nodes,
                edges@.map_values(|x: Edge| x@) == g.nodes[c as int].edges,
                k <= edges@.len(),
                s < n,
                e < n,
                s != e,
                c < n,
                g.nodes[s as int].value == *start,
                g.nodes[e as int].value == *end,
                dist@.len() == n,
                paths@.len() == n,
                dist@[s as int] == 0,
                paths@[s as int]@ == Seq::<NodeRcWrapper>::empty(),
                dist@[e as int] == UNREACHED,
                dist@[c as int] == dc,
                dc != UNREACHED,
                dc + MAX_WEIGHT <= pops * MAX_WEIGHT,
                pops * MAX_WEIGHT < UNREACHED,
                !frontier_items(q).contains_key(c),
                forall|j: int|
                    0 <= j < n && #[trigger] dist@[j] != UNREACHED ==> {
                        &&& g.is_walk(seq![NodeRcWrapper(s)] + paths@[j]@)
                        &&& (seq![NodeRcWrapper(s)] + paths@[j]@).last().0 == j
                        &&& dist@[j] <= pops * MAX_WEIGHT
                    },
                forall|j: usize| #[trigger]
                    frontier_items(q).contains_key(j) ==> j < n && frontier_items(q)[j]
                        == priority_of(dist@[j as int]),
                forall|j: int|
                    0 <= j < n && !frontier_items(q).contains_key(j as usize) ==> #[trigger] dist@[j]
                        != UNREACHED,
                forall|j: int, m: int|
                    0 <= j < n && j != c && !frontier_items(q).contains_key(j as usize) && 0 <= m
                        < g.nodes[j].edges.len() ==> {
                        let t = #[trigger] g.nodes[j].edges[m].target;
                        &&& t != e
                        &&& t < n ==> dist@[t as int] != UNREACHED
                    },
                forall|m: int|
                    0 <= m < k ==> {
                        let t = #[trigger] g.nodes[c as int].edges[m].target;
                        &&& t != e
                        &&& t < n ==> dist@[t as int] != UNREACHED
                    },
                frontier_items(q).dom().finite(),
                frontier_items(q).dom().len() + pops == n,
            decreases edges.len() - k,
        {
            let t = edges[k].get_node().0;
            let w = edges[k].get_weight();
            proof {
                assert(edges@[k as int]@ == g.nodes[c as int].edges[k as int]);
            }
            if t == e {
                // The end is a neighbour of the node just taken: the path is found.
                let path = assemble(s, &paths[c], e);
                proof {
                    assert(g.has_edge(c, e));
                    lemma_walk_push(g, seq![NodeRcWrapper(s)] + paths@[c as int]@, NodeRcWrapper(e));
                    assert(path@[0] == NodeRcWrapper(s));
                }
                return Ok(path);
            }
            if t < n && frontier_get(&q, t).is_some() {
                let candidate = dc + w as u128;
                if candidate < dist[t] {
                    let ghost walk = seq![NodeRcWrapper(s)] + paths@[c as int]@;
                    proof {
                        assert(g.has_edge(c, t));
                        lemma_walk_push(g, walk, NodeRcWrapper(t));
                    }
                    let mut rest: Vec<NodeRcWrapper> = Vec::new();
                    append_all(&mut rest, &paths[c]);
                    rest.push(NodeRcWrapper(t));
                    proof {
                        assert(seq![NodeRcWrapper(s)] + rest@ =~= walk.push(NodeRcWrapper(t)));
                    }
                    dist[t] = candidate;
                    paths[t] = rest;
                    frontier_change_priority(&mut q, t, UNREACHED - candidate);
                }
            }
            k = k + 1;
        }
    }
    proof {
        lemma_no_path(g, dist@, s as int, e as int, *start, *end);
    }
    Err(AlgorithmError::CannotFindPath("No path found".to_owned()))
}

/// The weight of the edges to `target` among the first `k` of `edges` is at
/// most that among all of them.
proof fn lemma_weight_to_prefix(edges: Seq<EdgeView>, k: int, target: usize)
    requires
        0 <= k <= edges.len(),
    ensures
        weight_to(edges.subrange(0, k), target) <= weight_to(edges, target),
    decreases edges.len() - k,
{
    if k < edges.len() {
        lemma_weight_to_prefix(edges, k + 1, target);
        assert(edges.subrange(0, k + 1).drop_last() =~= edges.subrange(0, k));
    } else {
        assert(edges.subrange(0, k) =~= edges);
    }
}

/// The cost of the first `j` nodes of `path` is at most the cost of `path`.
proof fn lemma_path_cost_prefix<T>(g: GraphView<T>, path: Seq<NodeRcWrapper>, j: int)
    requires
        1 <= j <= path.len(),
    ensures
        g.path_cost(path.subrange(0, j)) <= g.path_cost(path),
    decreases path.len() - j,
{
    if j < path.len() {
        lemma_path_cost_prefix(g, path, j + 1);
        assert(path.subrange(0, j + 1).drop_last() =~= path.subrange(0, j));
    } else {
        assert(path.subrange(0, j) =~= path);
    }
}

/// The cost of `path`: for each two consecutive nodes, the weight of the
/// edges from the first to the second (nothing where there is none). A path
/// of fewer than two nodes costs nothing.
pub fn calculate_path_cost<T: PartialEq>(graph: &Graph<T>, path: &Vec<NodeRcWrapper>) -> (r: u32)
    requires
        graph@.path_cost(path@) <= u32::MAX,
    ensures
        r == graph@.path_cost(path@),
        path@.len() <= 1 ==> r == 0,
{
    let ghost g = graph@;
    if path.len() == 0 {
        return 0;
    }
    let nodes = graph.get_nodes();
    let mut cost: u32 = 0;
    let mut i: usize = 0;
    assert(path@.subrange(0, 1).len() == 1);
    while i + 1 < path.len()
        invariant
            g == graph@,
            nodes@.map_values(|v: Node<T>| v@) == g.nodes,
            i < path@.len(),
            cost == g.path_cost(path@.subrange(0, i + 1)),
            g.path_cost(path@) <= u32::MAX,
        decreases path.len() - i,
    {
        let from = path[i].0;
        let to = path[i + 1].0;
        let ghost base = cost as nat;
        proof {
            lemma_path_cost_prefix(g, path@, i + 2);
            assert(path@.subrange(0, i + 2).drop_last() =~= path@.subrange(0, i + 1));
            assert(g.path_cost(path@.subrange(0, i + 2)) == base + g.step_cost(from, to));
        }
        if from < nodes.len() {
            let edges = nodes[from].get_edges();
            let ghost all = g.nodes[from as int].edges;
            let mut k: usize = 0;
            while k < edges.len()
                invariant
                    edges@.map_values(|x: Edge| x@) == all,
                    k <= all.len(),
                    cost == base + weight_to(all.subrange(0, k as int), to),
                    base + weight_to(all, to) <= u32::MAX,
                decreases edges.len() - k,
            {
                proof {
                    assert(edges@[k as int]@ == all[k as int]);
                    assert(all.subrange(0, k + 1).drop_last() =~= all.subrange(0, k as int));
                    lemma_weight_to_prefix(all, k + 1, to);
                }
                if edges[k].get_node().0 == to {
                    cost = cost + edges[k].get_weight();
                }
                k = k + 1;
            }
            assert(all.subrange(0, k as int) =~= all);
        }
        i = i + 1;
    }
    assert(path@.subrange(0, i + 1) =~= path@);
    cost
}

} // verus!
