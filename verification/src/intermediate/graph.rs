//! The dependency graph between definitions, kept by `petgraph`.

use petgraph::graph::NodeIndex;
use petgraph::stable_graph::StableDiGraph;
use vstd::prelude::*;

verus! {

/// A directed graph whose nodes are numbered from zero in the order they
/// were added; an edge goes from a definition to one that uses it.
#[verifier::external_body]
#[derive(Debug)]
pub struct DependencyGraph {
    graph: StableDiGraph<(), ()>,
}

/// The edges of the graph, in the order they were added.
pub uninterp spec fn graph_edges(g: DependencyGraph) -> Seq<(usize, usize)>;

/// The number of nodes of the graph.
pub uninterp spec fn graph_node_count(g: DependencyGraph) -> nat;

/// `order` lists each node below `n` once, and every edge goes forward.
pub open spec fn is_topological_order(order: Seq<usize>, edges: Seq<(usize, usize)>, n: nat) -> bool {
    &&& order.len() == n
    &&& order.no_duplicates()
    &&& forall|i: int| 0 <= i < order.len() ==> order[i] < n
    &&& forall|e: int, i: int, j: int|
        0 <= e < edges.len() && 0 <= i < order.len() && 0 <= j < order.len() && order[i]
            == edges[e].0 && order[j] == edges[e].1 ==> i < j
}

/// The graph has a topological order, which is to say it has no cycle.
pub open spec fn is_acyclic(edges: Seq<(usize, usize)>, n: nat) -> bool {
    exists|order: Seq<usize>| is_topological_order(order, edges, n)
}

impl DependencyGraph {
    /// An empty graph (`StableGraph::new`).
    #[verifier::external_body]
    pub(crate) fn new() -> (g: DependencyGraph)
        ensures
            graph_edges(g) == Seq::<(usize, usize)>::empty(),
            graph_node_count(g) == 0,
    {
        DependencyGraph { graph: StableDiGraph::new() }
    }

    /// Adds a node (`StableGraph::add_node`); with no node ever removed,
    /// its index is the number of nodes before the call. Panics past the
    /// `u32` index limit, which `requires` leaves out.
    #[verifier::external_body]
    pub(crate) fn add_node(&mut self) -> (idx: usize)
        requires
            graph_node_count(*old(self)) < u32::MAX,
        ensures
            idx == graph_node_count(*old(self)),
            graph_node_count(*final(self)) == graph_node_count(*old(self)) + 1,
            graph_edges(*final(self)) == graph_edges(*old(self)),
    {
        self.graph.add_node(()).index()
    }

    /// Adds an edge from `a` to `b` (`StableGraph::add_edge`), which panics
    /// when either is not a node, or when the new edge's index would reach
    /// the `u32` index limit (with no edge ever removed, that index is the
    /// number of edges before the call).
    #[verifier::external_body]
    pub(crate) fn add_edge(&mut self, a: usize, b: usize)
        requires
            a < graph_node_count(*old(self)),
            b < graph_node_count(*old(self)),
            graph_edges(*old(self)).len() < u32::MAX,
        ensures
            graph_node_count(*final(self)) == graph_node_count(*old(self)),
            graph_edges(*final(self)) == graph_edges(*old(self)).push((a, b)),
    {
        self.graph.add_edge(NodeIndex::new(a), NodeIndex::new(b), ());
    }

    /// A topological order of the nodes (`petgraph::algo::toposort`), or,
    /// when there is a cycle, a node on it. Which order comes out among
    /// the valid ones is not stated.
    #[verifier::external_body]
    pub(crate) fn toposort(&self) -> (r: Result<Vec<usize>, usize>)
        ensures
            match r {
                Ok(order) => is_topological_order(
                    order@,
                    graph_edges(*self),
                    graph_node_count(*self),
                ),
                Err(n) => n < graph_node_count(*self) && !is_acyclic(
                    graph_edges(*self),
                    graph_node_count(*self),
                ),
            },
    {
        match petgraph::algo::toposort(&self.graph, None) {
            Ok(nodes) => Ok(nodes.iter().map(|n| n.index()).collect()),
            Err(cycle) => Err(cycle.node_id().index()),
        }
    }
}

} // verus!
