//! Nodes that are taken out of the graph while it is built stay in the
//! container until the end, so that no node made later gets their index.
//! This file says what the graph is with such nodes left out.

use vstd::prelude::*;
use crate::cfg::cfg_node::{Edge, Node};
use crate::cfg::graph::{edges_from, edges_into, edges_without};

verus! {

/// Whether the index `a` was made and its node was not taken out: `out`
/// says of each index that was made whether its node was taken out.
pub open spec fn is_live(out: Seq<bool>, a: u32) -> bool {
    a < out.len() && !out[a as int]
}

/// The nodes that were not taken out.
pub open spec fn live_nodes<'a>(nodes: Map<u32, Node<'a>>, out: Seq<bool>) -> Map<u32, Node<'a>> {
    Map::new(|a: u32| nodes.dom().contains(a) && is_live(out, a), |a: u32| nodes[a])
}

/// The edges between nodes that were not taken out, in their order.
pub open spec fn live_edges<'a>(edges: Seq<(u32, u32, Edge<'a>)>, out: Seq<bool>) -> Seq<(u32, u32, Edge<'a>)>
    decreases edges.len(),
{
    if edges.len() == 0 {
        Seq::empty()
    } else if is_live(out, edges.last().0) && is_live(out, edges.last().1) {
        live_edges(edges.drop_last(), out).push(edges.last())
    } else {
        live_edges(edges.drop_last(), out)
    }
}

/// Of `pairs`, from position `i` on, those whose node was not taken out.
pub open spec fn live_pairs<'a>(pairs: Seq<(u32, Edge<'a>)>, out: Seq<bool>, i: int) -> Seq<(u32, Edge<'a>)>
    decreases pairs.len() - i,
{
    if i < 0 || i >= pairs.len() {
        Seq::empty()
    } else if is_live(out, pairs[i].0) {
        seq![pairs[i]] + live_pairs(pairs, out, i + 1)
    } else {
        live_pairs(pairs, out, i + 1)
    }
}

/// `out` with every index from `i` on held not to be taken out.
pub open spec fn out_below(out: Seq<bool>, i: int) -> Seq<bool> {
    Seq::new(out.len(), |j: int| j < i && out[j])
}

/// With no node taken out, every edge is an edge between nodes that were
/// not taken out.
pub proof fn lemma_live_edges_all<'a>(edges: Seq<(u32, u32, Edge<'a>)>, out: Seq<bool>)
    requires
        forall|k: int| 0 <= k < edges.len() ==> (#[trigger] edges[k]).0 < out.len() && edges[k].1 < out.len(),
    ensures
        live_edges(edges, out_below(out, 0)) == edges,
    decreases edges.len(),
{
    if edges.len() > 0 {
        assert(edges[edges.len() - 1].0 < out.len());
        assert forall|k: int| 0 <= k < edges.drop_last().len() implies (#[trigger] edges.drop_last()[k]).0
            < out.len() && edges.drop_last()[k].1 < out.len() by {
            assert(edges.drop_last()[k] == edges[k]);
        }
        lemma_live_edges_all(edges.drop_last(), out);
        assert(edges.drop_last().push(edges.last()) =~= edges);
    }
}

/// Every edge between nodes that were not taken out is an edge, and its ends
/// were not taken out.
pub proof fn lemma_live_edges_members<'a>(edges: Seq<(u32, u32, Edge<'a>)>, out: Seq<bool>)
    ensures
        forall|k: int|
            0 <= k < live_edges(edges, out).len() ==> edges.contains(#[trigger] live_edges(edges, out)[k])
                && is_live(out, live_edges(edges, out)[k].0) && is_live(out, live_edges(edges, out)[k].1),
        live_edges(edges, out).len() <= edges.len(),
    decreases edges.len(),
{
    if edges.len() > 0 {
        lemma_live_edges_members(edges.drop_last(), out);
        let rest = live_edges(edges.drop_last(), out);
        assert forall|k: int| 0 <= k < live_edges(edges, out).len() implies edges.contains(
            #[trigger] live_edges(edges, out)[k],
        ) && is_live(out, live_edges(edges, out)[k].0) && is_live(out, live_edges(edges, out)[k].1) by {
            if k < rest.len() {
                let j = choose|j: int| 0 <= j < edges.drop_last().len() && edges.drop_last()[j] == rest[k];
                assert(edges[j] == rest[k]);
            } else {
                assert(edges[edges.len() - 1] == edges.last());
            }
        }
    }
}

/// An edge more between nodes that were not taken out is an edge more.
pub proof fn lemma_live_edges_push<'a>(edges: Seq<(u32, u32, Edge<'a>)>, e: (u32, u32, Edge<'a>), out: Seq<bool>)
    requires
        is_live(out, e.0),
        is_live(out, e.1),
    ensures
        live_edges(edges.push(e), out) == live_edges(edges, out).push(e),
{
    assert(edges.push(e).drop_last() =~= edges);
    assert(edges.push(e).last() == e);
}

/// A node more changes nothing for the edges.
pub proof fn lemma_live_edges_grow<'a>(edges: Seq<(u32, u32, Edge<'a>)>, out: Seq<bool>)
    requires
        forall|k: int| 0 <= k < edges.len() ==> (#[trigger] edges[k]).0 < out.len() && edges[k].1 < out.len(),
    ensures
        live_edges(edges, out.push(false)) == live_edges(edges, out),
    decreases edges.len(),
{
    if edges.len() > 0 {
        assert(edges[edges.len() - 1].0 < out.len());
        assert forall|k: int| 0 <= k < edges.drop_last().len() implies (#[trigger] edges.drop_last()[k]).0
            < out.len() && edges.drop_last()[k].1 < out.len() by {
            assert(edges.drop_last()[k] == edges[k]);
        }
        lemma_live_edges_grow(edges.drop_last(), out);
    }
}

/// When a node is taken out, the edges at it go with it.
pub proof fn lemma_live_edges_retire<'a>(edges: Seq<(u32, u32, Edge<'a>)>, out: Seq<bool>, a: u32)
    requires
        a < out.len(),
    ensures
        live_edges(edges, out.update(a as int, true)) == edges_without(live_edges(edges, out), a),
    decreases edges.len(),
{
    if edges.len() > 0 {
        lemma_live_edges_retire(edges.drop_last(), out, a);
        let e = edges.last();
        let rest = live_edges(edges.drop_last(), out);
        if is_live(out, e.0) && is_live(out, e.1) {
            assert(rest.push(e).drop_last() =~= rest);
            assert(rest.push(e).last() == e);
        }
    }
}

/// The edges that enter a node, among those between nodes that were not
/// taken out, are those whose source was not taken out.
pub proof fn lemma_live_into<'a>(edges: Seq<(u32, u32, Edge<'a>)>, out: Seq<bool>, b: u32)
    requires
        is_live(out, b),
    ensures
        edges_into(live_edges(edges, out), b) == live_pairs(edges_into(edges, b), out, 0),
    decreases edges.len(),
{
    if edges.len() > 0 {
        lemma_live_into(edges.drop_last(), out, b);
        let e = edges.last();
        let rest = live_edges(edges.drop_last(), out);
        let pairs = edges_into(edges.drop_last(), b);
        if is_live(out, e.0) && is_live(out, e.1) {
            assert(rest.push(e).drop_last() =~= rest);
            assert(rest.push(e).last() == e);
        }
        if e.1 == b {
            lemma_live_pairs_shift(seq![(e.0, e.2)] + pairs, pairs, out, 0);
        }
    }
}

/// The edges that leave a node, among those between nodes that were not
/// taken out, are those whose target was not taken out.
pub proof fn lemma_live_from<'a>(edges: Seq<(u32, u32, Edge<'a>)>, out: Seq<bool>, a: u32)
    requires
        is_live(out, a),
    ensures
        edges_from(live_edges(edges, out), a) == live_pairs(edges_from(edges, a), out, 0),
    decreases edges.len(),
{
    if edges.len() > 0 {
        lemma_live_from(edges.drop_last(), out, a);
        let e = edges.last();
        let rest = live_edges(edges.drop_last(), out);
        let pairs = edges_from(edges.drop_last(), a);
        if is_live(out, e.0) && is_live(out, e.1) {
            assert(rest.push(e).drop_last() =~= rest);
            assert(rest.push(e).last() == e);
        }
        if e.0 == a {
            lemma_live_pairs_shift(seq![(e.1, e.2)] + pairs, pairs, out, 0);
        }
    }
}

/// What is kept of a list from a position on is what is kept of the list
/// without its first entry from the position before.
pub proof fn lemma_live_pairs_shift<'a>(
    longer: Seq<(u32, Edge<'a>)>,
    pairs: Seq<(u32, Edge<'a>)>,
    out: Seq<bool>,
    i: int,
)
    requires
        0 <= i,
        longer.len() == pairs.len() + 1,
        forall|k: int| 0 <= k < pairs.len() ==> longer[k + 1] == pairs[k],
    ensures
        live_pairs(longer, out, i + 1) == live_pairs(pairs, out, i),
    decreases pairs.len() - i,
{
    if i < pairs.len() {
        lemma_live_pairs_shift(longer, pairs, out, i + 1);
        assert(longer[i + 1] == pairs[i]);
    }
}

} // verus!
