use vstd::prelude::*;
use petgraph::graph::{EdgeIndex, Graph, NodeIndex};
use petgraph::{Directed, Direction};

verus! {

#[verifier::external_type_specification]
#[verifier::external_body]
#[verifier::reject_recursive_types(N)]
#[verifier::reject_recursive_types(E)]
#[verifier::reject_recursive_types(Ty)]
#[verifier::reject_recursive_types(Ix)]
pub struct ExGraph<N, E, Ty, Ix>(petgraph::graph::Graph<N, E, Ty, Ix>);

#[verifier::external_type_specification]
#[verifier::external_body]
pub struct ExDirected(petgraph::Directed);

/// A call graph: each node carries the module index and the symbol of a
/// function.
pub type CallGraph = Graph<(usize, usize), (), Directed, u32>;

/// The weights of the nodes of a graph, by node index.
pub uninterp spec fn graph_weights(g: Graph<(usize, usize), (), Directed, u32>) -> Seq<
    (usize, usize),
>;

/// For each node of a graph, the targets of its outgoing edges, in the
/// order in which the graph lists them: the edge added last comes first.
pub uninterp spec fn graph_out(g: Graph<(usize, usize), (), Directed, u32>) -> Seq<Seq<usize>>;

/// Where the edge with index `e` stands: its source node, and its place
/// in the list of that node's outgoing edges.
pub uninterp spec fn graph_edge_place(
    g: Graph<(usize, usize), (), Directed, u32>,
    e: usize,
) -> (usize, int);

/// The number of edges of a graph with the outgoing lists `out`.
pub open spec fn total_edges(out: Seq<Seq<usize>>) -> nat
    decreases out.len(),
{
    if out.len() == 0 {
        0
    } else {
        total_edges(out.drop_last()) + out.last().len()
    }
}

/// `p` walks along edges: every node of it is a node of the graph, and
/// each has an edge to the next.
pub open spec fn is_path(out: Seq<Seq<usize>>, p: Seq<usize>) -> bool {
    &&& p.len() >= 1
    &&& forall|i: int| 0 <= i < p.len() ==> (#[trigger] p[i]) < out.len()
    &&& forall|i: int| 0 <= i < p.len() - 1 ==> out[p[i] as int].contains(#[trigger] p[i + 1])
}

/// Some walk of at least one edge ends where it starts.
pub open spec fn has_cycle(out: Seq<Seq<usize>>) -> bool {
    exists|p: Seq<usize>| is_path(out, p) && p.len() >= 2 && p.first() == p.last()
}

/// `p` is the first place in `s` that holds `x`.
pub open spec fn first_at(s: Seq<usize>, x: usize, p: int) -> bool {
    &&& 0 <= p < s.len()
    &&& s[p] == x
    &&& forall|j: int| 0 <= j < p ==> s[j] != x
}

/// The number of times `x` stands in `s`.
pub open spec fn count_of(s: Seq<usize>, x: usize) -> nat {
    s.filter(|y: usize| y == x).len()
}

/// `petgraph::graph::Graph::new`: a directed graph with no node.
#[verifier::external_body]
pub(crate) fn graph_new() -> (g: CallGraph)
    ensures
        graph_weights(g) == Seq::<(usize, usize)>::empty(),
        graph_out(g) == Seq::<Seq<usize>>::empty(),
{
    Graph::new()
}

/// `Graph::node_count`. A graph lists outgoing edges for each of its
/// nodes, and its indices have 32 bits.
#[verifier::external_body]
pub(crate) fn node_count(g: &CallGraph) -> (r: usize)
    ensures
        r == graph_weights(*g).len(),
        r == graph_out(*g).len(),
        r <= u32::MAX,
{
    g.node_count()
}

/// `Graph::edge_count`.
#[verifier::external_body]
pub(crate) fn edge_count(g: &CallGraph) -> (r: usize)
    ensures
        r == total_edges(graph_out(*g)),
        r <= u32::MAX,
{
    g.edge_count()
}

/// `Graph::add_node`: the new node comes last and has no edge.
#[verifier::external_body]
pub(crate) fn add_node(g: &mut CallGraph, weight: (usize, usize)) -> (r: usize)
    requires
        graph_weights(*old(g)).len() < u32::MAX,
    ensures
        r == graph_weights(*old(g)).len(),
        graph_weights(*final(g)) == graph_weights(*old(g)).push(weight),
        graph_out(*final(g)) == graph_out(*old(g)).push(Seq::empty()),
{
    g.add_node(weight).index()
}

/// `Graph::node_weight` of a node of the graph.
#[verifier::external_body]
pub(crate) fn node_weight(g: &CallGraph, a: usize) -> (r: (usize, usize))
    requires
        a < graph_weights(*g).len(),
    ensures
        r == graph_weights(*g)[a as int],
{
    *g.node_weight(NodeIndex::new(a)).unwrap()
}

/// `Graph::add_edge` between two nodes of the graph: the new edge comes
/// first among the outgoing edges of `a`.
#[verifier::external_body]
pub(crate) fn add_edge(g: &mut CallGraph, a: usize, b: usize)
    requires
        a < graph_out(*old(g)).len(),
        b < graph_out(*old(g)).len(),
        total_edges(graph_out(*old(g))) < u32::MAX,
    ensures
        graph_weights(*final(g)) == graph_weights(*old(g)),
        graph_out(*final(g)) == graph_out(*old(g)).update(
            a as int,
            seq![b] + graph_out(*old(g))[a as int],
        ),
{
    g.add_edge(NodeIndex::new(a), NodeIndex::new(b), ());
}

/// `Graph::neighbors_directed` with `Direction::Outgoing`, of a node of
/// the graph.
#[verifier::external_body]
pub(crate) fn successors(g: &CallGraph, a: usize) -> (r: Vec<usize>)
    requires
        a < graph_out(*g).len(),
    ensures
        r@ == graph_out(*g)[a as int],
{
    g.neighbors_directed(NodeIndex::new(a), Direction::Outgoing).map(|n| n.index()).collect()
}

/// `Graph::neighbors_directed` with `Direction::Incoming`, of a node of
/// the graph: each node stands in the result once for each edge it has to
/// `a`.
#[verifier::external_body]
pub(crate) fn predecessors(g: &CallGraph, a: usize) -> (r: Vec<usize>)
    requires
        a < graph_out(*g).len(),
    ensures
        forall|s: usize|
            s < graph_out(*g).len() ==> count_of(r@, s) == count_of(
                #[trigger] graph_out(*g)[s as int],
                a,
            ),
        forall|i: int| 0 <= i < r@.len() ==> (#[trigger] r@[i]) < graph_out(*g).len(),
{
    g.neighbors_directed(NodeIndex::new(a), Direction::Incoming).map(|n| n.index()).collect()
}

/// `Graph::find_edge` between two nodes of the graph: the first edge to
/// `b` among the outgoing edges of `a`.
#[verifier::external_body]
pub(crate) fn find_edge(g: &CallGraph, a: usize, b: usize) -> (r: Option<usize>)
    requires
        a < graph_out(*g).len(),
        b < graph_out(*g).len(),
    ensures
        r is Some <==> graph_out(*g)[a as int].contains(b),
        r matches Some(e) ==> e < total_edges(graph_out(*g)) && graph_edge_place(*g, e).0 == a
            && first_at(graph_out(*g)[a as int], b, graph_edge_place(*g, e).1),
{
    g.find_edge(NodeIndex::new(a), NodeIndex::new(b)).map(|e| e.index())
}

/// `Graph::remove_edge` of an edge of the graph: the edge leaves the list
/// of outgoing edges it stands in, and the other edges keep their order.
#[verifier::external_body]
pub(crate) fn remove_edge(g: &mut CallGraph, e: usize)
    requires
        e < total_edges(graph_out(*old(g))),
    ensures
        graph_weights(*final(g)) == graph_weights(*old(g)),
        graph_out(*final(g)) == graph_out(*old(g)).update(
            graph_edge_place(*old(g), e).0 as int,
            graph_out(*old(g))[graph_edge_place(*old(g), e).0 as int].remove(
                graph_edge_place(*old(g), e).1,
            ),
        ),
{
    g.remove_edge(EdgeIndex::new(e));
}

/// `petgraph::algo::is_cyclic_directed`.
#[verifier::external_body]
pub(crate) fn is_cyclic(g: &CallGraph) -> (r: bool)
    ensures
        r == has_cycle(graph_out(*g)),
{
    petgraph::algo::is_cyclic_directed(g)
}

/// `Clone::clone` of `Graph`: the same nodes and edges under the same
/// indices.
#[verifier::external_body]
pub(crate) fn clone_graph(g: &CallGraph) -> (r: CallGraph)
    ensures
        graph_weights(r) == graph_weights(*g),
        graph_out(r) == graph_out(*g),
        forall|e: usize| graph_edge_place(r, e) == graph_edge_place(*g, e),
{
    g.clone()
}

} // verus!
