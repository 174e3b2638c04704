//! What the pass that resolves labels does to the graph.
//!
//! The pass walks the graph from a function's source, depth first. On the way
//! it gives each `break` and `continue` that names a label in scope its
//! statement edge, and it collects the label placeholders; afterwards every
//! placeholder gives way to what it labels, whether the walk came to it or
//! not.

use vstd::prelude::*;
use crate::cfg::cfg_node::{ControlType, Edge, LabelEdge, NodeType};
use crate::cfg::errors::{LabelProcessingErrorView, MethodProcessingErrorView};
use crate::cfg::lowering::{collapse, first_target, lookup, yield_error};
use crate::cfg::model::{GraphModel, Lowered};

verus! {

/// The targets of the edges that leave `a`, the edge added last first.
pub open spec fn successors<'a>(g: GraphModel<'a>, a: u32) -> Seq<u32> {
    g.outgoing(a).map_values(|e: (u32, Edge<'a>)| e.0)
}

/// What the walk has done so far: the nodes it has been at, and the label
/// placeholders it has found, in the order in which it found them.
pub struct Walk {
    pub visited: Set<u32>,
    pub found: Seq<u32>,
}

/// What the walk does at one node, given the labels in scope: a `break` or
/// `continue` that names one of them gets a statement edge to where the
/// label's placeholder says such a jump goes, if it says so; a label
/// placeholder comes into scope for the nodes that the walk reaches from it,
/// and is noted for removal. A `return` or a `yield` that names a label in
/// scope is a failure.
pub open spec fn resolve_node<'a>(
    g: GraphModel<'a>,
    current: u32,
    labels: Seq<(&'a str, u32)>,
) -> Lowered<'a, (Seq<(&'a str, u32)>, Seq<u32>)> {
    let node = g.nodes[current];
    match (node.node_type, node.label) {
        (NodeType::ControlNode(control), Some(label)) => match lookup(labels, label@) {
            None => Ok((g, (labels, Seq::empty()))),
            Some(label_node) => match control {
                ControlType::Break => resolve_jump(g, current, label_node, LabelEdge::Break, labels),
                ControlType::Continue => resolve_jump(g, current, label_node, LabelEdge::Continue, labels),
                ControlType::Yield => Err(
                    MethodProcessingErrorView::LabelProcessing {
                        error: LabelProcessingErrorView::NotImplemented(yield_error()),
                    },
                ),
                ControlType::Return => Err(
                    MethodProcessingErrorView::LabelProcessing {
                        error: LabelProcessingErrorView::ReturnToLabel,
                    },
                ),
            },
        },
        (NodeType::Label, Some(label)) => Ok((g, (labels.push((label, current)), seq![current]))),
        _ => Ok((g, (labels, Seq::empty()))),
    }
}

/// Giving the jump at `current` its statement edge to the target of the
/// first edge of kind `kind` that leaves `label_node`, if there is one.
pub open spec fn resolve_jump<'a>(
    g: GraphModel<'a>,
    current: u32,
    label_node: u32,
    kind: LabelEdge,
    labels: Seq<(&'a str, u32)>,
) -> Lowered<'a, (Seq<(&'a str, u32)>, Seq<u32>)> {
    match first_target(g.outgoing(label_node), Edge::Label(kind), 0) {
        None => Ok((g, (labels, Seq::empty()))),
        Some(target) => match g.try_add_edge(current, target, Edge::Statement) {
            Err(e) => Err(e),
            Ok((g1, _)) => Ok((g1, (labels, Seq::empty()))),
        },
    }
}

/// The walk from `current` with `labels` in scope. `universe` holds the
/// nodes of the graph, which the walk does not change. A node that the walk
/// has been at is passed over; an index that is no node is a failure.
pub open spec fn resolve_from<'a>(
    g: GraphModel<'a>,
    universe: Set<u32>,
    current: u32,
    labels: Seq<(&'a str, u32)>,
    walk: Walk,
) -> Lowered<'a, Walk>
    decreases universe.difference(walk.visited).len(), 0nat,
    when universe.finite()
    via resolve_from_decreases
{
    if walk.visited.contains(current) {
        Ok((g, walk))
    } else if !universe.contains(current) || !g.has_node(current) {
        Err(MethodProcessingErrorView::MalformedAst)
    } else {
        match resolve_node(g, current, labels) {
            Err(e) => Err(e),
            Ok((g1, (scope, found))) => resolve_successors(
                g1,
                universe,
                successors(g1, current),
                0,
                scope,
                Walk { visited: walk.visited.insert(current), found: walk.found + found },
            ),
        }
    }
}

/// The walk from each of `targets` in turn, from position `i` on.
pub open spec fn resolve_successors<'a>(
    g: GraphModel<'a>,
    universe: Set<u32>,
    targets: Seq<u32>,
    i: int,
    labels: Seq<(&'a str, u32)>,
    walk: Walk,
) -> Lowered<'a, Walk>
    decreases universe.difference(walk.visited).len(), 1 + targets.len() - i,
    when universe.finite()
    via resolve_successors_decreases
{
    if i < 0 || i >= targets.len() {
        Ok((g, walk))
    } else {
        match resolve_from(g, universe, targets[i], labels, walk) {
            Err(e) => Err(e),
            Ok((g1, after)) => resolve_successors(
                g1,
                universe,
                targets,
                i + 1,
                labels,
                Walk { visited: walk.visited.union(after.visited), found: after.found },
            ),
        }
    }
}

#[via_fn]
proof fn resolve_from_decreases<'a>(
    g: GraphModel<'a>,
    universe: Set<u32>,
    current: u32,
    labels: Seq<(&'a str, u32)>,
    walk: Walk,
) {
    if !walk.visited.contains(current) && universe.contains(current) {
        let before = universe.difference(walk.visited);
        let after = universe.difference(walk.visited.insert(current));
        assert(after =~= before.remove(current));
        assert(before.contains(current));
    }
}

#[via_fn]
proof fn resolve_successors_decreases<'a>(
    g: GraphModel<'a>,
    universe: Set<u32>,
    targets: Seq<u32>,
    i: int,
    labels: Seq<(&'a str, u32)>,
    walk: Walk,
) {
    assert forall|v: Set<u32>| #[trigger]
        universe.difference(walk.visited.union(v)).len() <= universe.difference(walk.visited).len() by {
        let before = universe.difference(walk.visited);
        let later = universe.difference(walk.visited.union(v));
        assert(later.subset_of(before));
        vstd::set_lib::lemma_len_subset(later, before);
    }
}

/// Taking the label placeholder `p` out of the graph: the target of its
/// `Next` edge gets a copy of every edge that enters `p`, and `p` leaves the
/// graph. A placeholder that no edge enters leaves without more. One that
/// edges enter and that has no `Next` edge is a failure, and so is one whose
/// `Next` edge leads back to itself.
pub open spec fn remove_label<'a>(g: GraphModel<'a>, p: u32) -> Lowered<'a, ()> {
    let target = first_target(g.outgoing(p), Edge::Label(LabelEdge::Next), 0);
    if target == Some(p) {
        Err(MethodProcessingErrorView::MalformedAst)
    } else {
        collapse(g, p, target)
    }
}

/// Taking out the label placeholders `found` from position `i` on, in their
/// order.
pub open spec fn remove_labels<'a>(g: GraphModel<'a>, found: Seq<u32>, i: int) -> Lowered<'a, ()>
    decreases found.len() - i,
{
    if i < 0 || i >= found.len() {
        Ok((g, ()))
    } else {
        match remove_label(g, found[i]) {
            Err(e) => Err(e),
            Ok((g1, _)) => remove_labels(g1, found, i + 1),
        }
    }
}

/// Whether `n` is a label placeholder of `g`.
pub open spec fn is_placeholder<'a>(g: GraphModel<'a>, n: u32) -> bool {
    g.has_node(n) && g.nodes[n].node_type is Label
}

/// Taking out every label placeholder whose index is `i` or above and below
/// `end`, the lowest index first.
pub open spec fn sweep_labels<'a>(g: GraphModel<'a>, i: u32, end: u32) -> Lowered<'a, ()>
    decreases end - i,
{
    if i >= end {
        Ok((g, ()))
    } else if is_placeholder(g, i) {
        match remove_label(g, i) {
            Err(e) => Err(e),
            Ok((g1, _)) => sweep_labels(g1, (i + 1) as u32, end),
        }
    } else {
        sweep_labels(g, (i + 1) as u32, end)
    }
}

/// The whole pass for the function whose source is `start`: the walk from
/// `start`; then the placeholders that the walk found are taken out, in the
/// order in which it found them; then every placeholder that was made since
/// the source was, and that the walk did not come to, is taken out too.
pub open spec fn resolve_labels<'a>(g: GraphModel<'a>, start: u32) -> Lowered<'a, ()> {
    match resolve_from(
        g,
        g.nodes.dom(),
        start,
        Seq::empty(),
        Walk { visited: Set::empty(), found: Seq::empty() },
    ) {
        Err(e) => Err(e),
        Ok((g1, walk)) => match remove_labels(g1, walk.found, 0) {
            Err(e) => Err(e),
            Ok((g2, _)) => sweep_labels(g2, start, g2.made as u32),
        },
    }
}

} // verus!
