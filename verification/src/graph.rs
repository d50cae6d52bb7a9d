//! The dependency graph, held in a `petgraph` `DiGraphMap` whose nodes are
//! positions in a list of task names.
use vstd::prelude::*;
use petgraph::algo::toposort;
use petgraph::graphmap::{DiGraphMap, GraphMap};
use petgraph::Directed;
use std::hash::BuildHasher;

verus! {

#[verifier::external_type_specification]
#[verifier::external_body]
#[verifier::reject_recursive_types(N)]
#[verifier::reject_recursive_types(E)]
#[verifier::reject_recursive_types(Ty)]
#[verifier::reject_recursive_types(S)]
pub struct ExGraphMap<N, E, Ty, S: BuildHasher>(GraphMap<N, E, Ty, S>);

#[verifier::external_type_specification]
#[verifier::external_body]
pub struct ExDirected(Directed);

/// The nodes of a graph, in the order in which they were first added.
pub uninterp spec fn graph_nodes(g: DiGraphMap<usize, ()>) -> Seq<usize>;

/// The directed edges of a graph, as `(source, target)` pairs, in the order in
/// which they were first added.
pub uninterp spec fn graph_edges(g: DiGraphMap<usize, ()>) -> Seq<(usize, usize)>;

/// What `toposort` returns for the graph with these nodes and edges (each in
/// the order in which it was first added): an order of the nodes, or the node
/// that the `Cycle` error names.
pub uninterp spec fn toposort_of(nodes: Seq<usize>, edges: Seq<(usize, usize)>) -> Result<Seq<usize>, usize>;

/// `s` with `x` added at the end unless it is there already.
pub open spec fn seq_add<A>(s: Seq<A>, x: A) -> Seq<A> {
    if s.contains(x) {
        s
    } else {
        s.push(x)
    }
}

/// `q` follows edges of `e` from its first to its last node.
pub open spec fn is_edge_path(e: Set<(usize, usize)>, q: Seq<usize>) -> bool {
    &&& q.len() >= 2
    &&& forall|i: int| 0 <= i < q.len() - 1 ==> e.contains((#[trigger] q[i], q[i + 1]))
}

/// `n` lies on a cycle of the edges `e`.
pub open spec fn on_edge_cycle(e: Set<(usize, usize)>, n: usize) -> bool {
    exists|q: Seq<usize>| is_edge_path(e, q) && q[0] == n && q.last() == n
}

/// `order` lists every node exactly once, each before its successors.
pub open spec fn is_topological_order(nodes: Set<usize>, e: Set<(usize, usize)>, order: Seq<usize>) -> bool {
    &&& order.no_duplicates()
    &&& order.to_set() == nodes
    &&& forall|a: usize, b: usize| #[trigger] e.contains((a, b)) ==>
            exists|i: int, j: int| 0 <= i < j < order.len() && order[i] == a && order[j] == b
}

/// `DiGraphMap::new`: a graph without nodes or edges.
#[verifier::external_body]
pub(crate) fn graph_new() -> (g: DiGraphMap<usize, ()>)
    ensures
        graph_nodes(g) == Seq::<usize>::empty(),
        graph_edges(g) == Seq::<(usize, usize)>::empty(),
{
    DiGraphMap::new()
}

/// `GraphMap::add_node`: adds the node `n` if it is not there yet.
#[verifier::external_body]
pub(crate) fn graph_add_node(g: &mut DiGraphMap<usize, ()>, n: usize)
    ensures
        graph_nodes(*final(g)) == seq_add(graph_nodes(*old(g)), n),
        graph_edges(*final(g)) == graph_edges(*old(g)),
{
    g.add_node(n);
}

/// `GraphMap::add_edge`: adds the edge from `a` to `b` if it is not there
/// yet, and the nodes `a`, then `b`, if they are not there yet.
#[verifier::external_body]
pub(crate) fn graph_add_edge(g: &mut DiGraphMap<usize, ()>, a: usize, b: usize)
    ensures
        graph_nodes(*final(g)) == seq_add(seq_add(graph_nodes(*old(g)), a), b),
        graph_edges(*final(g)) == seq_add(graph_edges(*old(g)), (a, b)),
{
    g.add_edge(a, b, ());
}

/// `petgraph::algo::toposort`: its result, named by `toposort_of`.  On an
/// acyclic graph it is an order of the nodes in which each node comes before
/// its successors; otherwise it is the node that the returned `Cycle` names,
/// which lies on a cycle (self loops are cycles too).
#[verifier::external_body]
pub(crate) fn graph_toposort(g: &DiGraphMap<usize, ()>) -> (r: Result<Vec<usize>, usize>)
    ensures
        match r {
            Ok(order) => toposort_of(graph_nodes(*g), graph_edges(*g)) == Ok::<Seq<usize>, usize>(order@),
            Err(n) => toposort_of(graph_nodes(*g), graph_edges(*g)) == Err::<Seq<usize>, usize>(n),
        },
        r matches Ok(order) ==> is_topological_order(graph_nodes(*g).to_set(), graph_edges(*g).to_set(), order@),
        r matches Err(n) ==> on_edge_cycle(graph_edges(*g).to_set(), n),
{
    match toposort(&*g, None) {
        Ok(order) => Ok(order),
        Err(cycle) => Err(cycle.node_id()),
    }
}

/// Adding an element adds it to the set of elements.
pub proof fn lemma_seq_add_to_set<A>(s: Seq<A>, x: A)
    ensures
        seq_add(s, x).to_set() == s.to_set().insert(x),
{
    if !s.contains(x) {
        assert forall|y: A| s.push(x).contains(y) <==> (s.contains(y) || y == x) by {
            if s.push(x).contains(y) {
                let j = choose|j: int| 0 <= j < s.push(x).len() && s.push(x)[j] == y;
                if j < s.len() {
                    assert(s[j] == y);
                }
            }
            if s.contains(y) {
                let j = choose|j: int| 0 <= j < s.len() && s[j] == y;
                assert(s.push(x)[j] == y);
            }
            if y == x {
                assert(s.push(x)[s.len() as int] == y);
            }
        }
    }
    assert(seq_add(s, x).to_set() =~= s.to_set().insert(x));
}

} // verus!
