//! Nodes, edges and the graph that owns them.
//!
//! The graph keeps its nodes in an arena (a `Vec`); everything that refers to
//! a node (an edge's target, a path, a handle given to a caller) holds the
//! node's position in that arena.

use vstd::laws_eq::obeys_concrete_eq;
use vstd::prelude::*;
use vstd::std_specs::cmp::PartialEqSpec;

verus! {

/// A handle to a node of a graph: the node's position in the graph's arena.
#[derive(Clone, Copy, Debug, PartialEq, Eq, Hash, Structural)]
pub struct NodeRcWrapper(pub usize);

/// What an edge is to a proof: where it leads and what it costs.
pub struct EdgeView {
    pub weight: u32,
    pub target: usize,
}

/// A weighted edge to another node of the same graph.
#[derive(Clone, Copy, Debug, PartialEq, Eq, Structural)]
pub struct Edge {
    weight: u32,
    node: NodeRcWrapper,
}

impl View for Edge {
    type V = EdgeView;

    closed spec fn view(&self) -> EdgeView {
        EdgeView { weight: self.weight, target: self.node.0 }
    }
}

impl Edge {
    pub fn new(weight: u32, node: NodeRcWrapper) -> (r: Edge)
        ensures
            r@ == (EdgeView { weight, target: node.0 }),
    {
        Edge { weight, node }
    }

    pub fn get_weight(&self) -> (r: u32)
        ensures
            r == self@.weight,
    {
        self.weight
    }

    pub fn get_node(&self) -> (r: &NodeRcWrapper)
        ensures
            r.0 == self@.target,
    {
        &self.node
    }
}

/// The sum of the weights of the edges in `edges` that lead to `target`.
pub open spec fn weight_to(edges: Seq<EdgeView>, target: usize) -> nat
    decreases edges.len(),
{
    if edges.len() == 0 {
        0
    } else {
        let last = edges.last();
        weight_to(edges.drop_last(), target) + if last.target == target {
            last.weight as nat
        } else {
            0
        }
    }
}

/// What a node is to a proof.
pub struct NodeView<T> {
    pub value: T,
    pub edges: Seq<EdgeView>,
    pub distance: u32,
    pub path: Seq<NodeRcWrapper>,
}

impl<T> NodeView<T> {
    /// Some edge of the node leads to `target`.
    pub open spec fn has_edge_to(self, target: usize) -> bool {
        exists|k: int| 0 <= k < self.edges.len() && #[trigger] self.edges[k].target == target
    }

    /// The node after an edge to `target` of `weight` was offered to it: an
    /// edge to a target that the node already reaches is dropped.
    pub open spec fn with_edge(self, weight: u32, target: usize) -> NodeView<T> {
        if self.has_edge_to(target) {
            self
        } else {
            NodeView { edges: self.edges.push(EdgeView { weight, target }), ..self }
        }
    }
}

/// A vertex of a graph: a value that identifies it, its outgoing edges, and
/// scratch state (a distance and a path) kept for the caller's own use.
pub struct Node<T> {
    value: T,
    edges: Vec<Edge>,
    distance: u32,
    path: Vec<NodeRcWrapper>,
}

impl<T> View for Node<T> {
    type V = NodeView<T>;

    closed spec fn view(&self) -> NodeView<T> {
        NodeView {
            value: self.value,
            edges: self.edges@.map_values(|e: Edge| e@),
            distance: self.distance,
            path: self.path@,
        }
    }
}

impl<T> Node<T> {
    /// A node with no edges, an infinite distance (`u32::MAX`) and an empty path.
    pub fn new(value: T) -> (r: Node<T>)
        ensures
            r@ == (NodeView {
                value,
                edges: Seq::<EdgeView>::empty(),
                distance: u32::MAX,
                path: Seq::<NodeRcWrapper>::empty(),
            }),
    {
        let r = Node { value, edges: Vec::new(), distance: u32::MAX, path: Vec::new() };
        assert(r@.edges =~= Seq::<EdgeView>::empty());
        r
    }

    pub fn get_value(&self) -> (r: &T)
        ensures
            *r == self@.value,
    {
        &self.value
    }

    /// Adds an edge to `node` unless the node already has an edge to it.
    pub fn add_edge(&mut self, weight: u32, node: NodeRcWrapper)
        ensures
            final(self)@ == old(self)@.with_edge(weight, node.0),
    {
        let ghost edges = self@.edges;
        let mut k: usize = 0;
        while k < self.edges.len()
            invariant
                *self == *old(self),
                edges == self@.edges,
                k <= edges.len(),
                forall|j: int| 0 <= j < k ==> edges[j].target != node.0,
            decreases self.edges.len() - k,
        {
            if self.edges[k].node == node {
                assert(edges[k as int].target == node.0);
                return;
            }
            k = k + 1;
        }
        self.edges.push(Edge::new(weight, node));
        assert(final(self)@.edges =~= edges.push(EdgeView { weight, target: node.0 }));
    }

    pub fn get_edges(&self) -> (r: &Vec<Edge>)
        ensures
            r@.map_values(|e: Edge| e@) == self@.edges,
    {
        &self.edges
    }

    pub fn get_distance(&self) -> (r: u32)
        ensures
            r == self@.distance,
    {
        self.distance
    }

    pub fn set_distance(&mut self, distance: u32)
        ensures
            final(self)@ == (NodeView { distance, ..old(self)@ }),
    {
        self.distance = distance;
    }

    pub fn get_path(&self) -> (r: &Vec<NodeRcWrapper>)
        ensures
            r@ == self@.path,
    {
        &self.path
    }

    pub fn set_path(&mut self, path: Vec<NodeRcWrapper>)
        ensures
            final(self)@ == (NodeView { path: path@, ..old(self)@ }),
    {
        self.path = path;
    }
}

/// Two nodes are equal when their values are.
impl<T: PartialEq> PartialEq for Node<T> {
    fn eq(&self, other: &Node<T>) -> (r: bool) {
        self.value.eq(&other.value)
    }
}

impl<T: PartialEq> vstd::std_specs::cmp::PartialEqSpecImpl for Node<T> {
    open spec fn obeys_eq_spec() -> bool {
        <T as PartialEqSpec>::obeys_eq_spec()
    }

    open spec fn eq_spec(&self, other: &Node<T>) -> bool {
        self@.value.eq_spec(&other@.value)
    }
}

/// Tells whether two values are equal, where `==` on `T` is equality of values.
pub fn equal_values<T: PartialEq>(a: &T, b: &T) -> (r: bool)
    requires
        obeys_concrete_eq::<T>(),
    ensures
        r == (*a == *b),
{
    proof {
        reveal(obeys_concrete_eq);
    }
    a.eq(b)
}

/// What a graph is to a proof.
pub struct GraphView<T> {
    pub directed: bool,
    pub nodes: Seq<NodeView<T>>,
}

impl<T> GraphView<T> {
    /// No two nodes share a value.
    pub open spec fn wf(self) -> bool {
        forall|i: int, j: int|
            0 <= i < self.nodes.len() && 0 <= j < self.nodes.len() && i != j
                ==> #[trigger] self.nodes[i].value != #[trigger] self.nodes[j].value
    }

    /// Some node holds `value`.
    pub open spec fn contains_value(self, value: T) -> bool {
        exists|i: int| 0 <= i < self.nodes.len() && #[trigger] self.nodes[i].value == value
    }

    /// The position of the node that holds `value` (meaningful where one does).
    pub open spec fn index_of(self, value: T) -> int {
        choose|i: int| 0 <= i < self.nodes.len() && #[trigger] self.nodes[i].value == value
    }

    /// The graph after `add_edge` found its endpoints at `from` and `to`: an
    /// edge `from -> to` is offered to `from` and, where the graph is
    /// undirected, an edge `to -> from` to `to`.
    pub open spec fn link(self, from: int, to: int, weight: u32) -> GraphView<T> {
        let once = self.nodes.update(from, self.nodes[from].with_edge(weight, to as usize));
        if self.directed {
            GraphView { nodes: once, ..self }
        } else {
            GraphView {
                nodes: once.update(to, once[to].with_edge(weight, from as usize)),
                ..self
            }
        }
    }

    /// An edge leads from the node at `from` to the node at `to`.
    pub open spec fn has_edge(self, from: usize, to: usize) -> bool {
        &&& from < self.nodes.len()
        &&& to < self.nodes.len()
        &&& self.nodes[from as int].has_edge_to(to)
    }

    /// `path` is a non-empty sequence of nodes of the graph, each joined to the
    /// next by an edge.
    pub open spec fn is_walk(self, path: Seq<NodeRcWrapper>) -> bool {
        &&& path.len() > 0
        &&& forall|i: int| 0 <= i < path.len() ==> #[trigger] path[i].0 < self.nodes.len()
        &&& forall|i: int|
            0 <= i < path.len() - 1 ==> #[trigger] self.has_edge(path[i].0, path[i + 1].0)
    }

    /// Some walk leads from the node holding `start` to the node holding `end`.
    pub open spec fn path_exists(self, start: T, end: T) -> bool {
        exists|path: Seq<NodeRcWrapper>|
            #[trigger] self.is_walk(path) && self.nodes[path[0].0 as int].value == start
                && self.nodes[path.last().0 as int].value == end
    }

    /// What one step of `path` from `from` to `to` costs: the weights of the
    /// edges from `from` to `to`, or nothing where `from` is no node of the graph.
    pub open spec fn step_cost(self, from: usize, to: usize) -> nat {
        if from < self.nodes.len() {
            weight_to(self.nodes[from as int].edges, to)
        } else {
            0
        }
    }

    /// The cost of `path`: the sum of the costs of its consecutive steps.
    pub open spec fn path_cost(self, path: Seq<NodeRcWrapper>) -> nat
        decreases path.len(),
    {
        if path.len() <= 1 {
            0
        } else {
            self.path_cost(path.drop_last()) + self.step_cost(
                path[path.len() - 2].0,
                path.last().0,
            )
        }
    }
}

/// A graph that owns its nodes. In a directed graph `add_edge` adds one edge;
/// in an undirected one it adds the edge and its reverse.
pub struct Graph<T> {
    directed: bool,
    nodes: Vec<Node<T>>,
}

impl<T> View for Graph<T> {
    type V = GraphView<T>;

    closed spec fn view(&self) -> GraphView<T> {
        GraphView { directed: self.directed, nodes: self.nodes@.map_values(|n: Node<T>| n@) }
    }
}

impl<T: PartialEq> Graph<T> {
    pub fn new(directed: bool) -> (r: Graph<T>)
        ensures
            r@.directed == directed,
            r@.nodes.len() == 0,
            r@.wf(),
    {
        Graph { directed, nodes: Vec::new() }
    }

    /// The position of the node that holds `value`, if one does.
    fn position(&self, value: &T) -> (r: Option<usize>)
        requires
            obeys_concrete_eq::<T>(),
        ensures
            match r {
                Some(i) => i < self@.nodes.len() && self@.nodes[i as int].value == *value,
                None => !self@.contains_value(*value),
            },
    {
        let mut i: usize = 0;
        while i < self.nodes.len()
            invariant
                i <= self.nodes.len(),
                obeys_concrete_eq::<T>(),
                forall|j: int| 0 <= j < i ==> self@.nodes[j].value != *value,
            decreases self.nodes.len() - i,
        {
            if equal_values(self.nodes[i].get_value(), value) {
                return Some(i);
            }
            i = i + 1;
        }
        None
    }

    /// Adds `node` unless a node with an equal value is already there.
    pub fn add_node(&mut self, node: Node<T>) -> (r: Option<NodeRcWrapper>)
        requires
            old(self)@.wf(),
            obeys_concrete_eq::<T>(),
        ensures
            final(self)@.wf(),
            old(self)@.contains_value(node@.value) ==> r is None && final(self)@ == old(self)@,
            !old(self)@.contains_value(node@.value) ==> {
                &&& r == Some(NodeRcWrapper(old(self)@.nodes.len() as usize))
                &&& final(self)@ == (GraphView {
                    nodes: old(self)@.nodes.push(node@),
                    ..old(self)@
                })
            },
    {
        if self.position(node.get_value()).is_some() {
            return None;
        }
        let ghost before = self@;
        let index = self.nodes.len();
        self.nodes.push(node);
        assert(self@.nodes =~= before.nodes.push(node@));
        Some(NodeRcWrapper(index))
    }

    pub fn get_nodes(&self) -> (r: &Vec<Node<T>>)
        ensures
            r@.map_values(|n: Node<T>| n@) == self@.nodes,
    {
        &self.nodes
    }

    /// Adds an edge `from -> to` of `weight`, and in an undirected graph its
    /// reverse, each unless its source already has an edge to its target.
    /// Returns false, and changes nothing, where either value is in no node.
    pub fn add_edge(&mut self, from: &T, to: &T, weight: u32) -> (r: bool)
        requires
            old(self)@.wf(),
            obeys_concrete_eq::<T>(),
        ensures
            final(self)@.wf(),
            r == (old(self)@.contains_value(*from) && old(self)@.contains_value(*to)),
            !r ==> final(self)@ == old(self)@,
            r ==> final(self)@ == old(self)@.link(
                old(self)@.index_of(*from),
                old(self)@.index_of(*to),
                weight,
            ),
    {
        let from_idx = self.position(from);
        let to_idx = self.position(to);
        let (fi, ti) = match (from_idx, to_idx) {
            (Some(fi), Some(ti)) => (fi, ti),
            _ => {
                return false;
            },
        };
        let ghost before = self@;
        assert(before.index_of(*from) == fi as int);
        assert(before.index_of(*to) == ti as int);
        self.nodes[fi].add_edge(weight, NodeRcWrapper(ti));
        let ghost once = before.nodes.update(fi as int, before.nodes[fi as int].with_edge(weight, ti));
        assert(self@.nodes =~= once);
        if !self.directed {
            self.nodes[ti].add_edge(weight, NodeRcWrapper(fi));
            assert(self@.nodes =~= once.update(ti as int, once[ti as int].with_edge(weight, fi)));
        }
        assert(self@ =~= before.link(fi as int, ti as int, weight));
        true
    }

    /// Some node holds `value`.
    pub fn contains(&self, value: &T) -> (r: bool)
        requires
            obeys_concrete_eq::<T>(),
        ensures
            r == self@.contains_value(*value),
    {
        self.position(value).is_some()
    }

    /// A handle to the node that holds `value`, if one does.
    pub fn get_node(&self, value: &T) -> (r: Option<NodeRcWrapper>)
        requires
            obeys_concrete_eq::<T>(),
        ensures
            r is None <==> !self@.contains_value(*value),
            r matches Some(h) ==> h.0 < self@.nodes.len() && self@.nodes[h.0 as int].value
                == *value,
    {
        match self.position(value) {
            Some(i) => Some(NodeRcWrapper(i)),
            None => None,
        }
    }
}

/// Edges to other targets add nothing to the weight toward `target`.
proof fn lemma_weight_to_none(edges: Seq<EdgeView>, target: usize)
    requires
        forall|k: int| 0 <= k < edges.len() ==> #[trigger] edges[k].target != target,
    ensures
        weight_to(edges, target) == 0,
    decreases edges.len(),
{
    if edges.len() > 0 {
        lemma_weight_to_none(edges.drop_last(), target);
    }
}

/// Offering a node without an edge to `target` an edge of `weight` to it
/// leaves it with an edge to `target`, of exactly that weight.
proof fn lemma_with_new_edge<T>(node: NodeView<T>, weight: u32, target: usize)
    requires
        !node.has_edge_to(target),
    ensures
        node.with_edge(weight, target).has_edge_to(target),
        weight_to(node.with_edge(weight, target).edges, target) == weight,
{
    let after = node.with_edge(weight, target);
    assert(after.edges.drop_last() =~= node.edges);
    assert(after.edges[node.edges.len() as int].target == target);
    lemma_weight_to_none(node.edges, target);
}

/// In an undirected graph, `add_edge` between two nodes that no edge joins
/// yet leaves each with an edge to the other, both of the given weight.
pub proof fn lemma_undirected_edge_is_mutual<T>(g: GraphView<T>, from: T, to: T, weight: u32)
    requires
        g.wf(),
        !g.directed,
        g.contains_value(from),
        g.contains_value(to),
        !g.nodes[g.index_of(from)].has_edge_to(g.index_of(to) as usize),
        !g.nodes[g.index_of(to)].has_edge_to(g.index_of(from) as usize),
    ensures
        ({
            let (f, t) = (g.index_of(from), g.index_of(to));
            let after = g.link(f, t, weight);
            &&& after.nodes[f].has_edge_to(t as usize)
            &&& weight_to(after.nodes[f].edges, t as usize) == weight
            &&& after.nodes[t].has_edge_to(f as usize)
            &&& weight_to(after.nodes[t].edges, f as usize) == weight
        }),
{
    let f = g.index_of(from);
    let t = g.index_of(to);
    lemma_with_new_edge(g.nodes[f], weight, t as usize);
    if f != t {
        lemma_with_new_edge(g.nodes[t], weight, f as usize);
    }
}

/// `add_edge` from a node that already has an edge to the target keeps that
/// node's edges, and so the weight of its edge, as they were; in an
/// undirected graph the same holds of the reverse edge.
pub proof fn lemma_first_weight_kept<T>(g: GraphView<T>, from: T, to: T, weight: u32)
    requires
        g.wf(),
        g.contains_value(from),
        g.contains_value(to),
        g.nodes[g.index_of(from)].has_edge_to(g.index_of(to) as usize),
    ensures
        ({
            let (f, t) = (g.index_of(from), g.index_of(to));
            let after = g.link(f, t, weight);
            &&& after.nodes[f].edges == g.nodes[f].edges
            &&& !g.directed && g.nodes[t].has_edge_to(f as usize) ==> after.nodes[t].edges
                == g.nodes[t].edges
        }),
{
}

/// In a directed graph `add_edge` changes no node but the source: in
/// particular it gives the target no edge back to the source.
pub proof fn lemma_directed_adds_no_reverse<T>(g: GraphView<T>, from: T, to: T, weight: u32)
    requires
        g.wf(),
        g.directed,
        g.contains_value(from),
        g.contains_value(to),
    ensures
        ({
            let (f, t) = (g.index_of(from), g.index_of(to));
            let after = g.link(f, t, weight);
            &&& forall|i: int| 0 <= i < g.nodes.len() && i != f ==> after.nodes[i] == g.nodes[i]
            &&& f != t ==> (after.nodes[t].has_edge_to(f as usize) == g.nodes[t].has_edge_to(
                f as usize,
            ))
        }),
{
}

} // verus!
