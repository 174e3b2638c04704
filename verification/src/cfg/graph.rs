//! The graph container and what is assumed of it.
//!
//! The graph itself is `petgraph`'s `StableGraph`. Verus does not look inside
//! it: what the container holds is given three names below, and each method
//! that the builder calls gets a wrapper whose contract says, over those
//! names, what the method does. Nothing in this file is proved; everything
//! else in the crate is proved from it.
//!
//! Nodes are addressed by their index as a `u32`, which is the container's
//! own index type.

use vstd::prelude::*;
use petgraph::stable_graph::NodeIndex;
use petgraph::stable_graph::StableGraph;
use petgraph::visit::EdgeRef;
use petgraph::Directed;
use crate::cfg::cfg_node::{Edge, Node};

verus! {

/// `petgraph`'s `StableGraph`, taken as a type whose inside is not seen.
#[verifier::external_type_specification]
#[verifier::external_body]
#[verifier::reject_recursive_types(N)]
#[verifier::reject_recursive_types(E)]
#[verifier::reject_recursive_types(Ty)]
#[verifier::reject_recursive_types(Ix)]
pub struct ExStableGraph<N, E, Ty, Ix>(StableGraph<N, E, Ty, Ix>);

/// `petgraph`'s marker for graphs with directed edges.
#[verifier::external_type_specification]
#[verifier::external_body]
pub struct ExDirected(Directed);

/// The container that holds a method's graph.
pub type MethodGraph<'a> = StableGraph<Node<'a>, Edge<'a>, Directed, u32>;

/// The nodes that are in the graph: each index in use, with its payload.
pub uninterp spec fn graph_nodes(g: MethodGraph<'static>) -> Map<u32, Node<'static>>;

/// The indices that removed nodes have left vacant, the one vacated last at
/// the end. The container hands them out again before it makes a new index.
pub uninterp spec fn graph_free(g: MethodGraph<'static>) -> Seq<u32>;

/// The edges that are in the graph as (source, target, payload), in the order
/// in which they were added.
pub uninterp spec fn graph_edges(g: MethodGraph<'static>) -> Seq<(u32, u32, Edge<'static>)>;

/// The edges of `edges` that leave `a`, as (target, payload), the one added
/// last first.
pub open spec fn edges_from<'a>(edges: Seq<(u32, u32, Edge<'a>)>, a: u32) -> Seq<(u32, Edge<'a>)>
    decreases edges.len(),
{
    if edges.len() == 0 {
        Seq::empty()
    } else if edges.last().0 == a {
        seq![(edges.last().1, edges.last().2)] + edges_from(edges.drop_last(), a)
    } else {
        edges_from(edges.drop_last(), a)
    }
}

/// The edges of `edges` that enter `b`, as (source, payload), the one added
/// last first.
pub open spec fn edges_into<'a>(edges: Seq<(u32, u32, Edge<'a>)>, b: u32) -> Seq<(u32, Edge<'a>)>
    decreases edges.len(),
{
    if edges.len() == 0 {
        Seq::empty()
    } else if edges.last().1 == b {
        seq![(edges.last().0, edges.last().2)] + edges_into(edges.drop_last(), b)
    } else {
        edges_into(edges.drop_last(), b)
    }
}

/// The edges of `edges` that neither leave nor enter `a`, in their order.
pub open spec fn edges_without<'a>(edges: Seq<(u32, u32, Edge<'a>)>, a: u32) -> Seq<(u32, u32, Edge<'a>)>
    decreases edges.len(),
{
    if edges.len() == 0 {
        Seq::empty()
    } else if edges.last().0 == a || edges.last().1 == a {
        edges_without(edges.drop_last(), a)
    } else {
        edges_without(edges.drop_last(), a).push(edges.last())
    }
}

/// The index that the next added node gets: the one vacated last if there is
/// one, else the first index never used.
pub open spec fn next_index<'a>(nodes: Map<u32, Node<'a>>, free: Seq<u32>) -> int {
    if free.len() > 0 {
        free.last() as int
    } else {
        (nodes.dom().len() + free.len()) as int
    }
}

/// `StableGraph::new`: a graph without nodes, edges or vacant indices.
#[verifier::external_body]
pub(crate) fn graph_new<'a>() -> (g: MethodGraph<'a>)
    ensures
        graph_nodes(g) =~= Map::empty(),
        graph_free(g) =~= Seq::empty(),
        graph_edges(g) =~= Seq::empty(),
{
    StableGraph::new()
}

/// `StableGraph::edge_count`: how many edges are in the graph.
#[verifier::external_body]
pub(crate) fn graph_edge_count<'a>(g: &MethodGraph<'a>) -> (r: usize)
    ensures
        r == graph_edges(*g).len(),
{
    g.edge_count()
}

/// `StableGraph::add_node`: the node gets the index vacated last, or a new
/// one if none is vacant; nothing else changes. The container panics when it
/// holds as many nodes as its index type can count, which `requires` leaves
/// out.
#[verifier::external_body]
pub(crate) fn graph_add_node<'a>(
    g: &mut MethodGraph<'a>,
    weight: Node<'a>,
) -> (r: u32)
    requires
        graph_nodes(*old(g)).dom().len() < u32::MAX,
    ensures
        r == next_index(graph_nodes(*old(g)), graph_free(*old(g))),
        graph_nodes(*final(g)) == graph_nodes(*old(g)).insert(r, weight),
        graph_free(*final(g)) == if graph_free(*old(g)).len() > 0 {
            graph_free(*old(g)).drop_last()
        } else {
            graph_free(*old(g))
        },
        graph_edges(*final(g)) == graph_edges(*old(g)),
{
    g.add_node(weight).index() as u32
}

/// `StableGraph::add_edge`: the edge is added after all others; nothing else
/// changes. The container panics when an end is not a node of the graph, or
/// when it holds as many edges as its index type can count, which `requires`
/// leaves out.
#[verifier::external_body]
pub(crate) fn graph_add_edge<'a>(
    g: &mut MethodGraph<'a>,
    a: u32,
    b: u32,
    weight: Edge<'a>,
)
    requires
        graph_nodes(*old(g)).dom().contains(a),
        graph_nodes(*old(g)).dom().contains(b),
        graph_edges(*old(g)).len() < u32::MAX,
    ensures
        graph_nodes(*final(g)) == graph_nodes(*old(g)),
        graph_free(*final(g)) == graph_free(*old(g)),
        graph_edges(*final(g)) == graph_edges(*old(g)).push((a, b, weight)),
{
    g.add_edge(NodeIndex::new(a as usize), NodeIndex::new(b as usize), weight);
}

/// `StableGraph::remove_node`: a node of the graph leaves it together with
/// every edge at it, and its index becomes the one vacated last; the other
/// edges keep their order. An index that is no node changes nothing.
#[verifier::external_body]
pub(crate) fn graph_remove_node<'a>(g: &mut MethodGraph<'a>, a: u32)
    ensures
        graph_nodes(*old(g)).dom().contains(a) ==> {
            &&& graph_nodes(*final(g)) == graph_nodes(*old(g)).remove(a)
            &&& graph_free(*final(g)) == graph_free(*old(g)).push(a)
            &&& graph_edges(*final(g)) == edges_without(graph_edges(*old(g)), a)
        },
        !graph_nodes(*old(g)).dom().contains(a) ==> {
            &&& graph_nodes(*final(g)) == graph_nodes(*old(g))
            &&& graph_free(*final(g)) == graph_free(*old(g))
            &&& graph_edges(*final(g)) == graph_edges(*old(g))
        },
{
    g.remove_node(NodeIndex::new(a as usize));
}

/// `StableGraph::node_weight`: the payload of a node, or nothing for an
/// index that is no node.
#[verifier::external_body]
pub(crate) fn graph_node_weight<'a>(
    g: &MethodGraph<'a>,
    a: u32,
) -> (r: Option<Node<'a>>)
    ensures
        r == if graph_nodes(*g).dom().contains(a) {
            Some(graph_nodes(*g)[a])
        } else {
            None
        },
{
    g.node_weight(NodeIndex::new(a as usize)).copied()
}

/// `StableGraph::edges`: the edges that leave a node, the one added last
/// first; none for an index that is no node.
#[verifier::external_body]
pub(crate) fn graph_outgoing<'a>(
    g: &MethodGraph<'a>,
    a: u32,
) -> (r: Vec<(u32, Edge<'a>)>)
    ensures
        r@ == if graph_nodes(*g).dom().contains(a) {
            edges_from(graph_edges(*g), a)
        } else {
            Seq::empty()
        },
{
    g.edges(NodeIndex::new(a as usize)).map(|e| (e.target().index() as u32, *e.weight())).collect()
}

/// `StableGraph::edges_directed` with `Incoming`: the edges that enter a
/// node, the one added last first; none for an index that is no node.
#[verifier::external_body]
pub(crate) fn graph_incoming<'a>(
    g: &MethodGraph<'a>,
    a: u32,
) -> (r: Vec<(u32, Edge<'a>)>)
    ensures
        r@ == if graph_nodes(*g).dom().contains(a) {
            edges_into(graph_edges(*g), a)
        } else {
            Seq::empty()
        },
{
    g.edges_directed(NodeIndex::new(a as usize), petgraph::Direction::Incoming).map(
        |e| (e.source().index() as u32, *e.weight()),
    ).collect()
}

} // verus!
