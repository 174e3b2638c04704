//! The graph as a mathematical value, and what each change to it is.

use vstd::prelude::*;
use crate::cfg::cfg_node::{Edge, Node};
use crate::cfg::errors::MethodProcessingErrorView;
use crate::cfg::graph::{
    edges_from, edges_into, edges_without, graph_edges, graph_nodes, MethodGraph,
};

verus! {

/// A graph as a value: the nodes by index, and the edges in the order in
/// which they were added. A node that is made gets the lowest index that no
/// node has had before, so an index is never used again.
pub struct GraphModel<'a> {
    /// The nodes that are in the graph.
    pub nodes: Map<u32, Node<'a>>,
    /// How many nodes were ever made: the indices below it have been used.
    pub made: nat,
    /// The edges that are in the graph.
    pub edges: Seq<(u32, u32, Edge<'a>)>,
    /// How many edges were ever added.
    pub added: nat,
}

/// The outcome of a step that may fail: the graph after it and what it
/// returns, or the failure.
pub type Lowered<'a, T> = Result<(GraphModel<'a>, T), MethodProcessingErrorView>;

/// Whether a container holds the nodes and the edges of `g`.
pub open spec fn shows<'a>(graph: MethodGraph<'a>, g: GraphModel<'a>) -> bool {
    graph_nodes(graph) == g.nodes && graph_edges(graph) == g.edges
}

/// The failure that is reported when the graph cannot grow any more.
pub open spec fn capacity_error() -> MethodProcessingErrorView {
    MethodProcessingErrorView::NotSupported("The graph has as many nodes or edges as it can hold"@)
}

impl<'a> GraphModel<'a> {
    /// The graph without nodes.
    pub open spec fn empty() -> Self {
        GraphModel { nodes: Map::empty(), made: 0, edges: Seq::empty(), added: 0 }
    }

    /// Whether `a` is the index of a node of the graph.
    pub open spec fn has_node(self, a: u32) -> bool {
        self.nodes.dom().contains(a)
    }

    /// What holds of every graph that is built: the indices of its nodes have
    /// been made, and every edge joins two nodes of the graph.
    pub open spec fn wf(self) -> bool {
        &&& self.nodes.dom().finite()
        &&& self.made <= u32::MAX
        &&& forall|a: u32| #[trigger] self.nodes.dom().contains(a) ==> a < self.made
        &&& forall|k: int|
            0 <= k < self.edges.len() ==> self.nodes.dom().contains((#[trigger] self.edges[k]).0)
                && self.nodes.dom().contains(self.edges[k].1)
    }

    /// The index that the next node gets.
    pub open spec fn next(self) -> u32 {
        self.made as u32
    }

    /// The graph with one more node, and the node's index.
    pub open spec fn add_node(self, weight: Node<'a>) -> (Self, u32) {
        (
            GraphModel {
                nodes: self.nodes.insert(self.next(), weight),
                made: self.made + 1,
                edges: self.edges,
                added: self.added,
            },
            self.next(),
        )
    }

    /// The graph with one more edge.
    pub open spec fn add_edge(self, a: u32, b: u32, weight: Edge<'a>) -> Self {
        GraphModel {
            nodes: self.nodes,
            made: self.made,
            edges: self.edges.push((a, b, weight)),
            added: self.added + 1,
        }
    }

    /// The graph without the node `a` and the edges at it.
    pub open spec fn remove_node(self, a: u32) -> Self {
        if self.has_node(a) {
            GraphModel {
                nodes: self.nodes.remove(a),
                made: self.made,
                edges: edges_without(self.edges, a),
                added: self.added,
            }
        } else {
            self
        }
    }

    /// The edges that leave `a` as (target, payload), the one added last
    /// first.
    pub open spec fn outgoing(self, a: u32) -> Seq<(u32, Edge<'a>)> {
        if self.has_node(a) {
            edges_from(self.edges, a)
        } else {
            Seq::empty()
        }
    }

    /// The edges that enter `a` as (source, payload), the one added last
    /// first.
    pub open spec fn incoming(self, a: u32) -> Seq<(u32, Edge<'a>)> {
        if self.has_node(a) {
            edges_into(self.edges, a)
        } else {
            Seq::empty()
        }
    }

    /// Adding a node, as far as the graph can grow.
    pub open spec fn try_add_node(self, weight: Node<'a>) -> Lowered<'a, u32> {
        if self.made >= u32::MAX {
            Err(capacity_error())
        } else {
            Ok(self.add_node(weight))
        }
    }

    /// Adding an edge between two nodes of the graph, as far as the graph can
    /// grow. An end that is no node of the graph is a failure.
    pub open spec fn try_add_edge(self, a: u32, b: u32, weight: Edge<'a>) -> Lowered<'a, ()> {
        if !self.has_node(a) || !self.has_node(b) {
            Err(MethodProcessingErrorView::MalformedAst)
        } else if self.added >= u32::MAX {
            Err(capacity_error())
        } else {
            Ok((self.add_edge(a, b, weight), ()))
        }
    }

    /// Adding, for each of `sources` from position `i` on, an edge from it to
    /// `target` with its payload.
    pub open spec fn redirect_from(self, sources: Seq<(u32, Edge<'a>)>, i: int, target: u32) -> Lowered<'a, ()>
        decreases sources.len() - i,
    {
        if i < 0 || i >= sources.len() {
            Ok((self, ()))
        } else {
            match self.try_add_edge(sources[i].0, target, sources[i].1) {
                Err(e) => Err(e),
                Ok((g, _)) => g.redirect_from(sources, i + 1, target),
            }
        }
    }

    /// Giving `target` a copy of each edge that enters `placeholder`.
    pub open spec fn redirect(self, placeholder: u32, target: u32) -> Lowered<'a, ()> {
        self.redirect_from(self.incoming(placeholder), 0, target)
    }
}

/// That a step did what the model says: it returned the value and left the
/// graph that `expected` names, or it failed as `expected` does.
pub open spec fn accords<'a, T, E: View>(
    r: Result<T, E>,
    g: GraphModel<'a>,
    expected: Result<(GraphModel<'a>, T), E::V>,
) -> bool {
    match expected {
        Ok((g2, v)) => r == Ok::<T, E>(v) && g == g2,
        Err(e) => r is Err && r->Err_0@ == e,
    }
}

/// As `accords`, for a step that returns a value with a view.
pub open spec fn accords_view<'a, T: View, E: View>(
    r: Result<T, E>,
    g: GraphModel<'a>,
    expected: Result<(GraphModel<'a>, T::V), E::V>,
) -> bool {
    match expected {
        Ok((g2, v)) => r is Ok && r->Ok_0@ == v && g == g2,
        Err(e) => r is Err && r->Err_0@ == e,
    }
}

/// The edges that stay when a node leaves are edges of the graph before.
pub proof fn lemma_edges_without_subset<'a>(edges: Seq<(u32, u32, Edge<'a>)>, a: u32)
    ensures
        forall|k: int|
            0 <= k < edges_without(edges, a).len() ==> {
                &&& edges.contains(#[trigger] edges_without(edges, a)[k])
                &&& edges_without(edges, a)[k].0 != a
                &&& edges_without(edges, a)[k].1 != a
            },
    decreases edges.len(),
{
    if edges.len() > 0 {
        lemma_edges_without_subset(edges.drop_last(), a);
        let rest = edges_without(edges.drop_last(), a);
        assert forall|k: int| 0 <= k < edges_without(edges, a).len() implies {
            &&& edges.contains(#[trigger] edges_without(edges, a)[k])
            &&& edges_without(edges, a)[k].0 != a
            &&& edges_without(edges, a)[k].1 != a
        } by {
            if k < rest.len() {
                let j = choose|j: int| 0 <= j < edges.drop_last().len() && edges.drop_last()[j] == rest[k];
                assert(edges[j] == rest[k]);
            } else {
                assert(edges[edges.len() - 1] == edges.last());
            }
        }
    }
}

/// An edge that enters `b` comes from one end of an edge of the graph.
pub proof fn lemma_edges_into_sources<'a>(edges: Seq<(u32, u32, Edge<'a>)>, b: u32)
    ensures
        forall|k: int|
            0 <= k < edges_into(edges, b).len() ==> edges.contains(
                ((#[trigger] edges_into(edges, b)[k]).0, b, edges_into(edges, b)[k].1),
            ),
    decreases edges.len(),
{
    if edges.len() > 0 {
        lemma_edges_into_sources(edges.drop_last(), b);
        let rest = edges_into(edges.drop_last(), b);
        assert forall|k: int| 0 <= k < edges_into(edges, b).len() implies edges.contains(
            ((#[trigger] edges_into(edges, b)[k]).0, b, edges_into(edges, b)[k].1),
        ) by {
            let e = edges_into(edges, b)[k];
            if edges.last().1 == b && k == 0 {
                assert(edges[edges.len() - 1] == (e.0, b, e.1));
            } else {
                let k2 = if edges.last().1 == b { k - 1 } else { k };
                assert(rest[k2] == e);
                let j = choose|j: int|
                    0 <= j < edges.drop_last().len() && edges.drop_last()[j] == (e.0, b, e.1);
                assert(edges[j] == (e.0, b, e.1));
            }
        }
    }
}

/// An edge that leaves `a` goes to one end of an edge of the graph.
pub proof fn lemma_edges_from_targets<'a>(edges: Seq<(u32, u32, Edge<'a>)>, a: u32)
    ensures
        forall|k: int|
            0 <= k < edges_from(edges, a).len() ==> edges.contains(
                (a, (#[trigger] edges_from(edges, a)[k]).0, edges_from(edges, a)[k].1),
            ),
    decreases edges.len(),
{
    if edges.len() > 0 {
        lemma_edges_from_targets(edges.drop_last(), a);
        let rest = edges_from(edges.drop_last(), a);
        assert forall|k: int| 0 <= k < edges_from(edges, a).len() implies edges.contains(
            (a, (#[trigger] edges_from(edges, a)[k]).0, edges_from(edges, a)[k].1),
        ) by {
            let e = edges_from(edges, a)[k];
            if edges.last().0 == a && k == 0 {
                assert(edges[edges.len() - 1] == (a, e.0, e.1));
            } else {
                let k2 = if edges.last().0 == a { k - 1 } else { k };
                assert(rest[k2] == e);
                let j = choose|j: int|
                    0 <= j < edges.drop_last().len() && edges.drop_last()[j] == (a, e.0, e.1);
                assert(edges[j] == (a, e.0, e.1));
            }
        }
    }
}

impl<'a> GraphModel<'a> {
    /// The next index is not in use, and adding a node keeps the graph well
    /// formed.
    pub proof fn lemma_add_node_wf(self, weight: Node<'a>)
        requires
            self.wf(),
            self.made < u32::MAX,
        ensures
            !self.has_node(self.next()),
            self.add_node(weight).0.wf(),
    {
        let g = self.add_node(weight).0;
        let i = self.next();
        if self.has_node(i) {
            assert(i < self.made);
        }
        assert forall|k: int| 0 <= k < g.edges.len() implies g.nodes.dom().contains(
            (#[trigger] g.edges[k]).0,
        ) && g.nodes.dom().contains(g.edges[k].1) by {
            assert(self.nodes.dom().contains(self.edges[k].0));
        }
    }

    /// Adding an edge between two nodes keeps the graph well formed.
    pub proof fn lemma_add_edge_wf(self, a: u32, b: u32, weight: Edge<'a>)
        requires
            self.wf(),
            self.has_node(a),
            self.has_node(b),
        ensures
            self.add_edge(a, b, weight).wf(),
    {
        let g = self.add_edge(a, b, weight);
        assert forall|k: int| 0 <= k < g.edges.len() implies g.nodes.dom().contains(
            (#[trigger] g.edges[k]).0,
        ) && g.nodes.dom().contains(g.edges[k].1) by {
            if k < self.edges.len() {
                assert(g.edges[k] == self.edges[k]);
            }
        }
    }

    /// Removing a node keeps the graph well formed.
    pub proof fn lemma_remove_node_wf(self, a: u32)
        requires
            self.wf(),
        ensures
            self.remove_node(a).wf(),
    {
        if self.has_node(a) {
            let g = self.remove_node(a);
            lemma_edges_without_subset(self.edges, a);
            assert forall|k: int| 0 <= k < g.edges.len() implies g.nodes.dom().contains(
                (#[trigger] g.edges[k]).0,
            ) && g.nodes.dom().contains(g.edges[k].1) by {
                let e = g.edges[k];
                assert(self.edges.contains(e));
                let j = choose|j: int| 0 <= j < self.edges.len() && self.edges[j] == e;
                assert(self.nodes.dom().contains(self.edges[j].0));
            }
        }
    }
}

} // verus!
