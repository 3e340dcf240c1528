//! The acyclic graph under the plan, kept by `petgraph`.
//!
//! Everything in this file is believed, not proved: each function here makes
//! one call into `petgraph` and states what that call does to the graph's
//! nodes and edges.
use petgraph::acyclic::Acyclic;
use petgraph::acyclic::AcyclicEdgeError;
use petgraph::data::Build;
use petgraph::graph::NodeIndex;
use petgraph::stable_graph::StableGraph;
use petgraph::Directed;
use petgraph::Direction;
use vstd::prelude::*;

verus! {

/// A directed acyclic graph whose node indices stay valid when other nodes
/// are removed. Each node carries one `usize`, each edge nothing.
#[verifier::external_body]
pub struct Dag {
    inner: Acyclic<StableGraph<usize, (), Directed, usize>>,
}

/// Why an edge was not added.
#[derive(Clone, Copy, Debug, PartialEq, Eq, Structural)]
pub enum EdgeError {
    /// The edge would close a cycle.
    Cycle,
    /// The edge would lead from a node to itself.
    SelfLoop,
    /// The graph did not take the edge.
    InvalidEdge,
}

/// The nodes of a graph: each index in use, with the number stored at it.
pub uninterp spec fn dag_nodes(g: Dag) -> Map<usize, usize>;

/// The edges of a graph, as pairs (from, to) of node indices.
pub uninterp spec fn dag_edges(g: Dag) -> Set<(usize, usize)>;

/// A numbering of the nodes along which every edge goes upwards.
pub open spec fn ranked(edges: Set<(usize, usize)>, rank: spec_fn(usize) -> nat) -> bool {
    forall|a: usize, b: usize| #[trigger] edges.contains((a, b)) ==> rank(a) < rank(b)
}

/// The edges form no cycle: some numbering of the nodes orders them all.
pub open spec fn is_dag(edges: Set<(usize, usize)>) -> bool {
    exists|rank: spec_fn(usize) -> nat| #[trigger] ranked(edges, rank)
}

/// The edges that stay when node `i` leaves the graph.
pub open spec fn edges_without(edges: Set<(usize, usize)>, i: usize) -> Set<(usize, usize)> {
    edges.filter(|e: (usize, usize)| e.0 != i && e.1 != i)
}

/// `Acyclic::new`: a graph with no node and no edge.
#[verifier::external_body]
pub(crate) fn dag_new() -> (g: Dag)
    ensures
        dag_nodes(g) == (Map::<usize, usize>::empty()),
        dag_edges(g) == (Set::<(usize, usize)>::empty()),
{
    Dag { inner: Acyclic::new() }
}

/// `StableGraph::node_count`: the number of nodes in the graph.
#[verifier::external_body]
pub(crate) fn dag_node_count(g: &Dag) -> (n: usize)
    ensures
        n == dag_nodes(*g).dom().len(),
{
    g.inner.node_count()
}

/// `StableGraph::contains_node`: whether the index is in use.
#[verifier::external_body]
pub(crate) fn dag_contains_node(g: &Dag, i: usize) -> (b: bool)
    ensures
        b == dag_nodes(*g).dom().contains(i),
{
    g.inner.contains_node(NodeIndex::new(i))
}

/// `StableGraph::node_weight`: the number stored at a node, if the index is
/// in use.
#[verifier::external_body]
pub(crate) fn dag_node_weight(g: &Dag, i: usize) -> (w: Option<usize>)
    ensures
        w == (if dag_nodes(*g).dom().contains(i) {
            Some(dag_nodes(*g)[i])
        } else {
            None
        }),
{
    g.inner.node_weight(NodeIndex::new(i)).copied()
}

/// `Build::add_node` of `Acyclic`: a new node with the given number, at an
/// index that was free; nothing else changes.
#[verifier::external_body]
pub(crate) fn dag_add_node(g: &mut Dag, weight: usize) -> (i: usize)
    ensures
        !dag_nodes(*old(g)).dom().contains(i),
        dag_nodes(*final(g)) == dag_nodes(*old(g)).insert(i, weight),
        dag_edges(*final(g)) == dag_edges(*old(g)),
{
    g.inner.add_node(weight).index()
}

/// `Acyclic::try_add_edge`: adds the edge from `a` to `b` exactly when the
/// edges stay free of cycles with it; otherwise the graph is left as it was,
/// and the error says whether `a` and `b` are one node. The graph type takes
/// every edge between two of its nodes, so `InvalidEdge` does not come.
#[verifier::external_body]
pub(crate) fn dag_try_add_edge(g: &mut Dag, a: usize, b: usize) -> (r: Result<(), EdgeError>)
    requires
        dag_nodes(*old(g)).dom().contains(a),
        dag_nodes(*old(g)).dom().contains(b),
    ensures
        dag_nodes(*final(g)) == dag_nodes(*old(g)),
        r is Ok <==> is_dag(dag_edges(*old(g)).insert((a, b))),
        r is Ok ==> dag_edges(*final(g)) == dag_edges(*old(g)).insert((a, b)),
        r is Err ==> dag_edges(*final(g)) == dag_edges(*old(g)),
        r matches Err(e) ==> e == (if a == b {
            EdgeError::SelfLoop
        } else {
            EdgeError::Cycle
        }),
{
    match g.inner.try_add_edge(NodeIndex::new(a), NodeIndex::new(b), ()) {
        Ok(_) => Ok(()),
        Err(AcyclicEdgeError::Cycle(_)) => Err(EdgeError::Cycle),
        Err(AcyclicEdgeError::SelfLoop) => Err(EdgeError::SelfLoop),
        Err(AcyclicEdgeError::InvalidEdge) => Err(EdgeError::InvalidEdge),
    }
}

/// `Acyclic::remove_node`: takes the node out together with every edge from
/// or to it, and hands back the number that was stored at it.
#[verifier::external_body]
pub(crate) fn dag_remove_node(g: &mut Dag, i: usize) -> (w: Option<usize>)
    requires
        dag_nodes(*old(g)).dom().contains(i),
    ensures
        w == Some(dag_nodes(*old(g))[i]),
        dag_nodes(*final(g)) == dag_nodes(*old(g)).remove(i),
        dag_edges(*final(g)) == edges_without(dag_edges(*old(g)), i),
{
    g.inner.remove_node(NodeIndex::new(i))
}

/// `StableGraph::node_indices`: every index in use, each once.
#[verifier::external_body]
pub(crate) fn dag_node_indices(g: &Dag) -> (v: Vec<usize>)
    ensures
        v@.no_duplicates(),
        forall|i: usize| v@.contains(i) <==> dag_nodes(*g).dom().contains(i),
{
    g.inner.node_indices().map(|n| n.index()).collect()
}

/// `StableGraph::neighbors_directed` with `Direction::Incoming`: the nodes
/// from which an edge leads to `i`. One with several such edges may be listed
/// several times.
#[verifier::external_body]
pub(crate) fn dag_predecessors(g: &Dag, i: usize) -> (v: Vec<usize>)
    ensures
        forall|a: usize| v@.contains(a) <==> dag_edges(*g).contains((a, i)),
{
    g.inner.neighbors_directed(NodeIndex::new(i), Direction::Incoming).map(|n| n.index()).collect()
}

/// `StableGraph::neighbors`: the nodes to which an edge leads from `i`. One
/// with several such edges may be listed several times.
#[verifier::external_body]
pub(crate) fn dag_successors(g: &Dag, i: usize) -> (v: Vec<usize>)
    ensures
        forall|b: usize| v@.contains(b) <==> dag_edges(*g).contains((i, b)),
{
    g.inner.neighbors(NodeIndex::new(i)).map(|n| n.index()).collect()
}

} // verus!
