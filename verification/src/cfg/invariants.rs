//! What is said of the graph of a method, piece by piece, and how the
//! edges are counted when an edge is added, copied or removed.

use vstd::prelude::*;
use crate::cfg::cfg_node::{ControlType, Direction, Edge, NodeType};
use crate::cfg::graph::{edges_from, edges_into, edges_without};
use crate::cfg::model::GraphModel;

verus! {

/// How many of `edges` leave `n` with the payload `w`.
pub open spec fn count_from<'a>(edges: Seq<(u32, u32, Edge<'a>)>, n: u32, w: Edge<'a>) -> nat
    decreases edges.len(),
{
    if edges.len() == 0 {
        0
    } else {
        count_from(edges.drop_last(), n, w) + if edges.last().0 == n && edges.last().2 == w {
            1nat
        } else {
            0nat
        }
    }
}

/// How many of `edges` lead from `n` to `p` with the payload `w`.
pub open spec fn count_between<'a>(edges: Seq<(u32, u32, Edge<'a>)>, n: u32, p: u32, w: Edge<'a>) -> nat
    decreases edges.len(),
{
    if edges.len() == 0 {
        0
    } else {
        count_between(edges.drop_last(), n, p, w) + if edges.last().0 == n && edges.last().1 == p
            && edges.last().2 == w {
            1nat
        } else {
            0nat
        }
    }
}

/// How many of `pairs` are the pair of `n` and `w`.
pub open spec fn count_pairs<'a>(pairs: Seq<(u32, Edge<'a>)>, n: u32, w: Edge<'a>) -> nat
    decreases pairs.len(),
{
    if pairs.len() == 0 {
        0
    } else {
        count_pairs(pairs.drop_first(), n, w) + if pairs[0] == (n, w) {
            1nat
        } else {
            0nat
        }
    }
}

/// Whether exactly one `true` edge and exactly one `false` edge leave `n`.
pub open spec fn two_branches<'a>(g: GraphModel<'a>, n: u32) -> bool {
    &&& count_from(g.edges, n, Edge::Decision(Direction::True)) == 1
    &&& count_from(g.edges, n, Edge::Decision(Direction::False)) == 1
}

/// Whether every decision of the graph has exactly one `true` edge and
/// exactly one `false` edge.
pub open spec fn decisions_branch<'a>(g: GraphModel<'a>) -> bool {
    forall|n: u32| #[trigger] g.has_node(n) && g.nodes[n].node_type is Decision ==> two_branches(g, n)
}

/// Whether no edge enters a source.
pub open spec fn sources_begin<'a>(g: GraphModel<'a>) -> bool {
    forall|k: int| 0 <= k < g.edges.len() ==> !(g.nodes[(#[trigger] g.edges[k]).1].node_type is Source)
}

/// Whether every label edge leaves a label placeholder.
pub open spec fn label_edges_leave_labels<'a>(g: GraphModel<'a>) -> bool {
    forall|k: int|
        0 <= k < g.edges.len() && (#[trigger] g.edges[k]).2 is Label ==> g.nodes[g.edges[k].0].node_type is Label
}

/// Whether every `return` of the graph has a statement edge to `sink`.
pub open spec fn returns_reach<'a>(g: GraphModel<'a>, sink: u32) -> bool {
    forall|n: u32| #[trigger]
        g.has_node(n) && g.nodes[n].node_type == NodeType::ControlNode(ControlType::Return)
            ==> g.edges.contains((n, sink, Edge::Statement))
}

/// Whether every node of `g` is a node of `g2`, with the same payload.
pub open spec fn extends<'a>(g: GraphModel<'a>, g2: GraphModel<'a>) -> bool {
    forall|n: u32| #[trigger] g.has_node(n) ==> g2.has_node(n) && g2.nodes[n] == g.nodes[n]
}

/// Whether `n` is a source or a sink of `g`.
pub open spec fn is_bracket<'a>(g: GraphModel<'a>, n: u32) -> bool {
    g.has_node(n) && (g.nodes[n].node_type is Sink || g.nodes[n].node_type is Source)
}

/// Whether no edge of `g` is at `n`.
pub open spec fn isolated<'a>(g: GraphModel<'a>, n: u32) -> bool {
    forall|k: int| 0 <= k < g.edges.len() ==> (#[trigger] g.edges[k]).0 != n && g.edges[k].1 != n
}

/// No edge leaves a node that is not at the start of any edge.
pub proof fn lemma_count_from_none<'a>(edges: Seq<(u32, u32, Edge<'a>)>, n: u32, w: Edge<'a>)
    requires
        forall|k: int| 0 <= k < edges.len() ==> (#[trigger] edges[k]).0 != n,
    ensures
        count_from(edges, n, w) == 0,
        edges_from(edges, n) =~= Seq::empty(),
    decreases edges.len(),
{
    if edges.len() > 0 {
        assert(edges[edges.len() - 1].0 != n);
        assert forall|k: int| 0 <= k < edges.drop_last().len() implies (#[trigger] edges.drop_last()[k]).0
            != n by {
            assert(edges.drop_last()[k] == edges[k]);
        }
        lemma_count_from_none(edges.drop_last(), n, w);
    }
}

/// An edge more is counted where it leaves.
pub proof fn lemma_count_from_push<'a>(
    edges: Seq<(u32, u32, Edge<'a>)>,
    e: (u32, u32, Edge<'a>),
    n: u32,
    w: Edge<'a>,
)
    ensures
        count_from(edges.push(e), n, w) == count_from(edges, n, w) + if e.0 == n && e.2 == w {
            1nat
        } else {
            0nat
        },
{
    assert(edges.push(e).drop_last() =~= edges);
    assert(edges.push(e).last() == e);
}

/// An edge more is counted between its ends.
pub proof fn lemma_count_between_push<'a>(
    edges: Seq<(u32, u32, Edge<'a>)>,
    e: (u32, u32, Edge<'a>),
    n: u32,
    p: u32,
    w: Edge<'a>,
)
    ensures
        count_between(edges.push(e), n, p, w) == count_between(edges, n, p, w) + if e.0 == n && e.1
            == p && e.2 == w {
            1nat
        } else {
            0nat
        },
{
    assert(edges.push(e).drop_last() =~= edges);
    assert(edges.push(e).last() == e);
}

/// The edges that leave `n` once `p` has left the graph are those that led
/// elsewhere than to `p`.
pub proof fn lemma_count_without<'a>(edges: Seq<(u32, u32, Edge<'a>)>, p: u32, n: u32, w: Edge<'a>)
    requires
        n != p,
    ensures
        count_from(edges_without(edges, p), n, w) + count_between(edges, n, p, w) == count_from(
            edges,
            n,
            w,
        ),
    decreases edges.len(),
{
    if edges.len() > 0 {
        lemma_count_without(edges.drop_last(), p, n, w);
        let e = edges.last();
        if !(e.0 == p || e.1 == p) {
            lemma_count_from_push(edges_without(edges.drop_last(), p), e, n, w);
        }
    }
}

/// The edges that enter `p` from `n` are as many among the edges of the
/// graph as among the edges that enter `p`.
pub proof fn lemma_count_into<'a>(edges: Seq<(u32, u32, Edge<'a>)>, p: u32, n: u32, w: Edge<'a>)
    ensures
        count_pairs(edges_into(edges, p), n, w) == count_between(edges, n, p, w),
    decreases edges.len(),
{
    if edges.len() > 0 {
        lemma_count_into(edges.drop_last(), p, n, w);
        let e = edges.last();
        if e.1 == p {
            let rest = edges_into(edges.drop_last(), p);
            assert((seq![(e.0, e.2)] + rest).drop_first() =~= rest);
            assert((seq![(e.0, e.2)] + rest)[0] == (e.0, e.2));
        }
    }
}

/// An edge between nodes other than `p` stays when `p` leaves.
pub proof fn lemma_without_keeps<'a>(edges: Seq<(u32, u32, Edge<'a>)>, p: u32, e: (u32, u32, Edge<'a>))
    requires
        edges.contains(e),
        e.0 != p,
        e.1 != p,
    ensures
        edges_without(edges, p).contains(e),
    decreases edges.len(),
{
    let k = choose|k: int| 0 <= k < edges.len() && edges[k] == e;
    if k == edges.len() - 1 {
        let kept = edges_without(edges.drop_last(), p);
        assert(kept.push(e)[kept.len() as int] == e);
    } else {
        assert(edges.drop_last()[k] == e);
        lemma_without_keeps(edges.drop_last(), p, e);
        let kept = edges_without(edges.drop_last(), p);
        let j = choose|j: int| 0 <= j < kept.len() && kept[j] == e;
        if !(edges.last().0 == p || edges.last().1 == p) {
            assert(kept.push(edges.last())[j] == e);
        }
    }
}

/// No edge is at a node that is not in a well-formed graph.
pub proof fn lemma_absent_is_isolated<'a>(g: GraphModel<'a>, n: u32)
    requires
        g.wf(),
        !g.has_node(n),
    ensures
        isolated(g, n),
        g.outgoing(n) =~= Seq::empty(),
{
    assert forall|k: int| 0 <= k < g.edges.len() implies (#[trigger] g.edges[k]).0 != n && g.edges[k].1
        != n by {
        assert(g.nodes.dom().contains(g.edges[k].0));
        assert(g.nodes.dom().contains(g.edges[k].1));
    }
}


/// How many edges leave `n` once the copies are made: those that did
/// before, and one for each of the copied edges that `n` was the source of.
/// The copies add no edge that leads to `p`.
pub proof fn lemma_redirect_counts<'a>(
    g: GraphModel<'a>,
    sources: Seq<(u32, Edge<'a>)>,
    i: int,
    p: u32,
    t: u32,
    n: u32,
    w: Edge<'a>,
)
    requires
        0 <= i <= sources.len(),
        g.redirect_from(sources, i, t) is Ok,
        t != p,
    ensures
        ({
            let g2 = g.redirect_from(sources, i, t)->Ok_0.0;
            &&& count_from(g2.edges, n, w) == count_from(g.edges, n, w) + count_pairs(
                sources.subrange(i, sources.len() as int),
                n,
                w,
            )
            &&& count_between(g2.edges, n, p, w) == count_between(g.edges, n, p, w)
        }),
    decreases sources.len() - i,
{
    let rest = sources.subrange(i, sources.len() as int);
    if i < sources.len() {
        let g1 = g.add_edge(sources[i].0, t, sources[i].1);
        lemma_redirect_counts(g1, sources, i + 1, p, t, n, w);
        lemma_count_from_push(g.edges, (sources[i].0, t, sources[i].1), n, w);
        lemma_count_between_push(g.edges, (sources[i].0, t, sources[i].1), n, p, w);
        assert(rest.drop_first() =~= sources.subrange(i + 1, sources.len() as int));
        assert(rest[0] == sources[i]);
    } else {
        assert(rest.len() == 0);
    }
}

} // verus!
