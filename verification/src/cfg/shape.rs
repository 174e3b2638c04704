//! What holds of the graph at every step of the lowering of any syntax
//! tree, and what holds besides for trees without a function inside, for
//! trees in which every loop goes back to a node of its own, and for trees
//! in which no `try` without an entry stands last.

use vstd::prelude::*;
use crate::cfg::cfg_node::{ControlType, Direction, Edge, LabelEdge, Node, NodeType};
use crate::cfg::graph::edges_into;
use crate::cfg::invariants::{
    decisions_branch, is_bracket, isolated, label_edges_leave_labels, lemma_absent_is_isolated,
    lemma_count_from_none, lemma_count_from_push, lemma_count_into, lemma_count_without,
    lemma_redirect_counts, lemma_without_keeps, returns_reach, sources_begin, two_branches,
};
use crate::cfg::labels::{
    is_placeholder, remove_label, remove_labels, resolve_from, resolve_labels, resolve_node,
    resolve_successors, successors, sweep_labels, Walk,
};
use crate::cfg::lowering::{
    add_and_link, add_statement_nodes, catch_entries, collapse, collapse_true_target,
    finish_block, finish_loop, finish_node, first_target, link_chain, link_loop_statements,
    link_statements, lookup, loop_back_target, loop_init_target, loop_root, loop_true_target,
    loop_update_target, lower_block, lower_catches, lower_condition, lower_contents,
    lower_decision_block, lower_else, lower_function, lower_jump, lower_label, lower_loop,
    lower_loop_condition, lower_node, lower_return, lower_statements, lower_throw, lower_try,
    lower_try_body, throw_target, ContextModel, LoopParts, ProcessedNode,
};
use crate::cfg::model::{
    lemma_edges_from_targets, lemma_edges_into_sources, lemma_edges_without_subset, GraphModel,
};
use crate::cfg::trees::{
    anchored_block, anchored_contents, anchored_node, anchored_statements, block_yields,
    contents_yields, flat_block, flat_contents, flat_node, homing_block, homing_contents,
    homing_node, node_yields, quiet_contents, quiet_try, steady_block, steady_contents,
    steady_node,
};
use crate::messages::ast_node::{
    AstNode, AstNodeContents, CatchBlock, Decision, DecisionBlock, Exits, FunctionBlock,
    LoopBlock, Return, ThrowStatement, TryBlock,
};
use crate::messages::mixins::Block;

verus! {

/// What holds of the graph at every step of every lowering: it is well
/// formed, every label edge leaves a label placeholder, and no edge enters a
/// source.
pub open spec fn tidy<'a>(g: GraphModel<'a>) -> bool {
    &&& g.wf()
    &&& label_edges_leave_labels(g)
    &&& sources_begin(g)
}

/// Whether the index `t` was made, and its node, if it is still in the
/// graph, is no source.
pub open spec fn aim<'a>(g: GraphModel<'a>, t: u32) -> bool {
    t < g.made && (g.has_node(t) ==> !(g.nodes[t].node_type is Source))
}

/// Whether `t`, if there is one, is an index as `aim` says.
pub open spec fn aim_if<'a>(g: GraphModel<'a>, t: Option<u32>) -> bool {
    t is Some ==> aim(g, t->0)
}

/// Whether every entry of `table` names an index as `aim` says.
pub open spec fn aims<'a>(g: GraphModel<'a>, table: Seq<(&'a str, u32)>) -> bool {
    forall|k: int| 0 <= k < table.len() ==> aim(g, (#[trigger] table[k]).1)
}

/// Whether the index `l` was made, and its node, if it is still in the
/// graph, is a label placeholder.
pub open spec fn marks<'a>(g: GraphModel<'a>, l: u32) -> bool {
    l < g.made && (g.has_node(l) ==> g.nodes[l].node_type is Label)
}

/// Whether what a context names was made: the continuation, the targets of
/// `break` and `continue`, the exit and the handlers are no sources, and the
/// label placeholder is one.
pub open spec fn known<'a>(g: GraphModel<'a>, ctx: ContextModel<'a>) -> bool {
    &&& aim_if(g, ctx.most_recent_node)
    &&& aim_if(g, ctx.nearest_breakable_node)
    &&& aim_if(g, ctx.nearest_continuable_node)
    &&& aim_if(g, ctx.sink_node)
    &&& ctx.label is Some ==> marks(g, ctx.label->0)
    &&& aims(g, ctx.exception_nodes)
}

/// Whether `s` is a sink of `g` that no edge leaves.
pub open spec fn sealed<'a>(g: GraphModel<'a>, s: u32) -> bool {
    &&& g.has_node(s)
    &&& g.nodes[s].node_type is Sink
    &&& forall|k: int| 0 <= k < g.edges.len() ==> (#[trigger] g.edges[k]).0 != s
}

/// Whether `g2` has made what `g` has made, and every node of `g2` that
/// `g` had made is a node of `g`, with the same payload.
pub open spec fn follows<'a>(g: GraphModel<'a>, g2: GraphModel<'a>) -> bool {
    &&& g.made <= g2.made
    &&& forall|n: u32| #[trigger] g2.has_node(n) && n < g.made ==> g.has_node(n) && g.nodes[n] == g2.nodes[n]
}

/// Whether every node of `g` below `base` that is no label placeholder is a
/// node of `g2`.
pub open spec fn keeps<'a>(g: GraphModel<'a>, g2: GraphModel<'a>, base: nat) -> bool {
    forall|n: u32| #[trigger] g.has_node(n) && n < base && !(g.nodes[n].node_type is Label) ==> g2.has_node(n)
}

/// A step of a lowering from `g` to `g2`: it leaves the graph tidy, changes
/// no node that was there, and keeps every node below `base` that is no
/// label placeholder; if `flat`, it leaves no source or sink behind that was
/// not there.
pub open spec fn step<'a>(g: GraphModel<'a>, g2: GraphModel<'a>, base: nat, flat: bool) -> bool {
    &&& tidy(g2)
    &&& follows(g, g2)
    &&& keeps(g, g2, base)
    &&& flat ==> forall|n: u32| #[trigger] is_bracket(g2, n) ==> is_bracket(g, n)
}

/// Whether no edge leaves the sink `s` in `g2`, if none does in `g`.
pub open spec fn sealing<'a>(g: GraphModel<'a>, g2: GraphModel<'a>, s: u32) -> bool {
    sealed(g, s) ==> sealed(g2, s)
}

/// Whether every decision of `g2` has its two branches, if every decision
/// of `g` has.
pub open spec fn branching<'a>(g: GraphModel<'a>, g2: GraphModel<'a>) -> bool {
    decisions_branch(g) ==> decisions_branch(g2)
}

/// Whether `s` is a sink of `g` that every `return` of `g` has a statement
/// edge to.
pub open spec fn returned<'a>(g: GraphModel<'a>, s: u32) -> bool {
    &&& g.has_node(s)
    &&& g.nodes[s].node_type is Sink
    &&& returns_reach(g, s)
}

/// Whether every `return` of `g2` has a statement edge to the sink `s`, if
/// every `return` of `g` has.
pub open spec fn returning<'a>(g: GraphModel<'a>, g2: GraphModel<'a>, s: u32) -> bool {
    returned(g, s) ==> returned(g2, s)
}

/// Whether the entry `r` that a step from `g` to `g2` returned, if it
/// returned one, is no source, and was made by the step or is the
/// continuation `next`.
pub open spec fn entered<'a>(
    g: GraphModel<'a>,
    g2: GraphModel<'a>,
    r: Option<u32>,
    next: Option<u32>,
) -> bool {
    r matches Some(n) ==> aim(g2, n) && (n >= g.made || next == Some(n))
}

/// The entry of a lowered construct as an index, if it has one.
pub open spec fn entry_of(r: ProcessedNode) -> Option<u32> {
    match r {
        ProcessedNode::Child(n) => Some(n),
        ProcessedNode::Root => None,
    }
}

/// Two steps make a step.
pub proof fn lemma_steps<'a>(
    g: GraphModel<'a>,
    g1: GraphModel<'a>,
    g2: GraphModel<'a>,
    base: nat,
    flat: bool,
)
    requires
        g.wf(),
        step(g, g1, base, flat),
        step(g1, g2, base, flat),
    ensures
        step(g, g2, base, flat),
{
    assert forall|n: u32| #[trigger] g2.has_node(n) && n < g.made implies g.has_node(n) && g.nodes[n]
        == g2.nodes[n] by {
        assert(g1.has_node(n));
    }
    assert forall|n: u32| #[trigger] g.has_node(n) && n < base && !(g.nodes[n].node_type is Label) implies g2.has_node(
        n,
    ) by {
        assert(g1.has_node(n));
    }
    if flat {
        assert forall|n: u32| #[trigger] is_bracket(g2, n) implies is_bracket(g, n) by {
            assert(is_bracket(g1, n));
        }
    }
}

/// What is known of a graph is known of the graph after a step.
pub proof fn lemma_known_after<'a>(g: GraphModel<'a>, g2: GraphModel<'a>, ctx: ContextModel<'a>)
    requires
        follows(g, g2),
        known(g, ctx),
    ensures
        known(g2, ctx),
{
    assert forall|k: int| 0 <= k < ctx.exception_nodes.len() implies aim(
        g2,
        (#[trigger] ctx.exception_nodes[k]).1,
    ) by {
        assert(aim(g, ctx.exception_nodes[k].1));
    }
}

/// A node more is a step; the node gets the next index.
pub proof fn lemma_node_added<'a>(g: GraphModel<'a>, w: Node<'a>, s: u32)
    requires
        tidy(g),
        g.try_add_node(w) is Ok,
    ensures
        step(g, g.add_node(w).0, g.made, !(w.node_type is Sink || w.node_type is Source)),
        sealing(g, g.add_node(w).0, s),
        w.node_type != NodeType::ControlNode(ControlType::Return) ==> returning(g, g.add_node(w).0, s),
        g.add_node(w).1 == g.made,
        !g.has_node(g.add_node(w).1),
        g.add_node(w).0.made == g.made + 1,
        g.add_node(w).0.edges == g.edges,
        g.add_node(w).0.nodes == g.nodes.insert(g.add_node(w).1, w),
        !(w.node_type is Decision) ==> branching(g, g.add_node(w).0),
{
    let (g1, n) = g.add_node(w);
    g.lemma_add_node_wf(w);
    if decisions_branch(g) && !(w.node_type is Decision) {
        assert forall|m: u32| #[trigger] g1.has_node(m) && g1.nodes[m].node_type is Decision implies two_branches(
            g1,
            m,
        ) by {
            assert(g.has_node(m));
        }
    }
    if returned(g, s) && w.node_type != NodeType::ControlNode(ControlType::Return) {
        assert forall|m: u32| #[trigger]
            g1.has_node(m) && g1.nodes[m].node_type == NodeType::ControlNode(
                ControlType::Return,
            ) implies g1.edges.contains((m, s, Edge::Statement)) by {
            assert(g.has_node(m));
        }
    }
    assert forall|k: int| 0 <= k < g1.edges.len() implies !(g1.nodes[(#[trigger] g1.edges[k]).1].node_type is Source)
        && (g1.edges[k].2 is Label ==> g1.nodes[g1.edges[k].0].node_type is Label) by {
        assert(g.has_node(g.edges[k].0));
        assert(g.has_node(g.edges[k].1));
    }
}

/// An edge more is a step, if it is no label edge or leaves a label
/// placeholder, and does not enter a source.
pub proof fn lemma_edge_added<'a>(g: GraphModel<'a>, a: u32, b: u32, w: Edge<'a>, s: u32)
    requires
        tidy(g),
        g.try_add_edge(a, b, w) is Ok,
        w is Label ==> marks(g, a),
        aim(g, b),
    ensures
        step(g, g.add_edge(a, b, w), g.made, true),
        a != s ==> sealing(g, g.add_edge(a, b, w), s),
        returning(g, g.add_edge(a, b, w), s),
        g.add_edge(a, b, w).nodes == g.nodes,
        g.add_edge(a, b, w).made == g.made,
        !(w is Decision) ==> branching(g, g.add_edge(a, b, w)),
{
    let g1 = g.add_edge(a, b, w);
    g.lemma_add_edge_wf(a, b, w);
    if decisions_branch(g) && !(w is Decision) {
        assert forall|m: u32| #[trigger] g1.has_node(m) && g1.nodes[m].node_type is Decision implies two_branches(
            g1,
            m,
        ) by {
            assert(g.has_node(m));
            lemma_count_from_push(g.edges, (a, b, w), m, Edge::Decision(Direction::True));
            lemma_count_from_push(g.edges, (a, b, w), m, Edge::Decision(Direction::False));
        }
    }
    if returned(g, s) {
        assert forall|m: u32| #[trigger]
            g1.has_node(m) && g1.nodes[m].node_type == NodeType::ControlNode(
                ControlType::Return,
            ) implies g1.edges.contains((m, s, Edge::Statement)) by {
            assert(g.has_node(m));
            let k = choose|k: int| 0 <= k < g.edges.len() && g.edges[k] == (m, s, Edge::Statement);
            assert(g1.edges[k] == (m, s, Edge::Statement));
        }
    }
    assert forall|k: int| 0 <= k < g1.edges.len() implies !(g1.nodes[(#[trigger] g1.edges[k]).1].node_type is Source)
        && (g1.edges[k].2 is Label ==> g1.nodes[g1.edges[k].0].node_type is Label) by {
        if k < g.edges.len() {
            assert(g1.edges[k] == g.edges[k]);
        }
    }
    if a != s && sealed(g, s) {
        assert forall|k: int| 0 <= k < g1.edges.len() implies (#[trigger] g1.edges[k]).0 != s by {
            if k < g.edges.len() {
                assert(g1.edges[k] == g.edges[k]);
            }
        }
    }
}

/// A node less is a step.
pub proof fn lemma_node_removed<'a>(g: GraphModel<'a>, p: u32, s: u32, base: nat)
    requires
        tidy(g),
        base <= p || is_placeholder(g, p) || !g.has_node(p),
    ensures
        step(g, g.remove_node(p), base, true),
        p != s ==> sealing(g, g.remove_node(p), s),
        p != s ==> returning(g, g.remove_node(p), s),
        g.remove_node(p).nodes =~= g.nodes.remove(p),
        g.remove_node(p).made == g.made,
        g.incoming(p).len() == 0 ==> branching(g, g.remove_node(p)),
{
    let g1 = g.remove_node(p);
    g.lemma_remove_node_wf(p);
    if decisions_branch(g) && g.incoming(p).len() == 0 && g.has_node(p) {
        assert forall|m: u32| #[trigger] g1.has_node(m) && g1.nodes[m].node_type is Decision implies two_branches(
            g1,
            m,
        ) by {
            assert(g.has_node(m));
            lemma_count_without(g.edges, p, m, Edge::Decision(Direction::True));
            lemma_count_without(g.edges, p, m, Edge::Decision(Direction::False));
            lemma_count_into(g.edges, p, m, Edge::Decision(Direction::True));
            lemma_count_into(g.edges, p, m, Edge::Decision(Direction::False));
        }
    }
    if returned(g, s) && p != s && g.has_node(p) {
        assert forall|m: u32| #[trigger]
            g1.has_node(m) && g1.nodes[m].node_type == NodeType::ControlNode(
                ControlType::Return,
            ) implies g1.edges.contains((m, s, Edge::Statement)) by {
            assert(g.has_node(m));
            lemma_without_keeps(g.edges, p, (m, s, Edge::Statement));
        }
    }
    if g.has_node(p) {
        lemma_edges_without_subset(g.edges, p);
        assert forall|k: int| 0 <= k < g1.edges.len() implies !(g1.nodes[(#[trigger] g1.edges[k]).1].node_type is Source)
            && (g1.edges[k].2 is Label ==> g1.nodes[g1.edges[k].0].node_type is Label) && (sealed(g, s)
            ==> g1.edges[k].0 != s) by {
            let e = g1.edges[k];
            assert(g.edges.contains(e));
            let j = choose|j: int| 0 <= j < g.edges.len() && g.edges[j] == e;
            assert(!(g.nodes[g.edges[j].1].node_type is Source));
        }
    }
}

/// Copies of edges of the graph, led to another node, are a step.
pub proof fn lemma_copied<'a>(g: GraphModel<'a>, sources: Seq<(u32, Edge<'a>)>, i: int, p: u32, t: u32, s: u32)
    requires
        tidy(g),
        0 <= i <= sources.len(),
        g.redirect_from(sources, i, t) is Ok,
        forall|k: int| i <= k < sources.len() ==> g.edges.contains((sources[k].0, p, sources[k].1)),
        i < sources.len() ==> aim(g, t),
    ensures
        step(g, g.redirect_from(sources, i, t)->Ok_0.0, g.made, true),
        sealing(g, g.redirect_from(sources, i, t)->Ok_0.0, s),
        returning(g, g.redirect_from(sources, i, t)->Ok_0.0, s),
        g.redirect_from(sources, i, t)->Ok_0.0.nodes == g.nodes,
        g.redirect_from(sources, i, t)->Ok_0.0.made == g.made,
    decreases sources.len() - i,
{
    if i < sources.len() {
        let a = sources[i].0;
        let w = sources[i].1;
        let j = choose|j: int| 0 <= j < g.edges.len() && g.edges[j] == (a, p, w);
        assert(g.edges[j].2 is Label ==> g.nodes[g.edges[j].0].node_type is Label);
        assert(g.has_node(g.edges[j].0));
        lemma_edge_added(g, a, t, w, s);
        let g1 = g.add_edge(a, t, w);
        assert(sealed(g, s) ==> g.edges[j].0 != s);
        assert forall|k: int| i + 1 <= k < sources.len() implies g1.edges.contains(
            (sources[k].0, p, sources[k].1),
        ) by {
            let j2 = choose|j2: int|
                0 <= j2 < g.edges.len() && g.edges[j2] == (sources[k].0, p, sources[k].1);
            assert(g1.edges[j2] == (sources[k].0, p, sources[k].1));
        }
        lemma_copied(g1, sources, i + 1, p, t, s);
        let g2 = g.redirect_from(sources, i, t)->Ok_0.0;
        assert(step(g, g1, g.made, true));
        lemma_steps(g, g1, g2, g.made, true);
    }
}

/// Copying the edges that enter a placeholder and removing it is a step,
/// and the placeholder is gone.
pub proof fn lemma_collapsed_redirect<'a>(g: GraphModel<'a>, p: u32, t: u32, s: u32, base: nat)
    requires
        tidy(g),
        g.redirect(p, t) is Ok,
        aim(g, t),
        base <= p || is_placeholder(g, p) || !g.has_node(p),
    ensures
        step(g, g.redirect(p, t)->Ok_0.0.remove_node(p), base, true),
        p != s ==> sealing(g, g.redirect(p, t)->Ok_0.0.remove_node(p), s),
        p != s ==> returning(g, g.redirect(p, t)->Ok_0.0.remove_node(p), s),
        g.redirect(p, t)->Ok_0.0.remove_node(p).nodes =~= g.nodes.remove(p),
        g.redirect(p, t)->Ok_0.0.remove_node(p).made == g.made,
        t != p ==> branching(g, g.redirect(p, t)->Ok_0.0.remove_node(p)),
{
    if g.has_node(p) {
        lemma_edges_into_sources(g.edges, p);
    }
    let sources = g.incoming(p);
    lemma_copied(g, sources, 0, p, t, s);
    let g1 = g.redirect(p, t)->Ok_0.0;
    lemma_node_removed(g1, p, s, base);
    let g2 = g1.remove_node(p);
    lemma_steps(g, g1, g2, base, true);
    if decisions_branch(g) && t != p {
        if g.has_node(p) {
            assert forall|m: u32| #[trigger] g2.has_node(m) && g2.nodes[m].node_type is Decision implies two_branches(
                g2,
                m,
            ) by {
                assert(g.has_node(m));
                assert(sources.subrange(0, sources.len() as int) =~= sources);
                lemma_redirect_counts(g, sources, 0, p, t, m, Edge::Decision(Direction::True));
                lemma_redirect_counts(g, sources, 0, p, t, m, Edge::Decision(Direction::False));
                lemma_count_without(g1.edges, p, m, Edge::Decision(Direction::True));
                lemma_count_without(g1.edges, p, m, Edge::Decision(Direction::False));
                lemma_count_into(g.edges, p, m, Edge::Decision(Direction::True));
                lemma_count_into(g.edges, p, m, Edge::Decision(Direction::False));
            }
        } else {
            assert(g1 == g);
        }
    }
}

/// A placeholder that gives way to a node is a step, and the placeholder is
/// gone.
pub proof fn lemma_collapsed<'a>(g: GraphModel<'a>, p: u32, target: Option<u32>, s: u32, base: nat)
    requires
        tidy(g),
        collapse(g, p, target) is Ok,
        aim_if(g, target),
        base <= p || is_placeholder(g, p) || !g.has_node(p),
    ensures
        step(g, collapse(g, p, target)->Ok_0.0, base, true),
        p != s ==> sealing(g, collapse(g, p, target)->Ok_0.0, s),
        p != s ==> returning(g, collapse(g, p, target)->Ok_0.0, s),
        collapse(g, p, target)->Ok_0.0.nodes =~= g.nodes.remove(p),
        collapse(g, p, target)->Ok_0.0.made == g.made,
        target != Some(p) ==> branching(g, collapse(g, p, target)->Ok_0.0),
{
    if g.incoming(p).len() > 0 {
        lemma_collapsed_redirect(g, p, target->0, s, base);
    } else {
        lemma_node_removed(g, p, s, base);
    }
}

/// Whether each of `nodes` was made at or after `base`, and is no source.
pub open spec fn made_since<'a>(base: nat, g: GraphModel<'a>, nodes: Seq<u32>) -> bool {
    forall|k: int| 0 <= k < nodes.len() ==> base <= #[trigger] nodes[k] && aim(g, nodes[k])
}

/// What `made_since` says of a graph holds of the graph after a step.
pub proof fn lemma_made_since_after<'a>(base: nat, g: GraphModel<'a>, g2: GraphModel<'a>, nodes: Seq<u32>)
    requires
        follows(g, g2),
        made_since(base, g, nodes),
    ensures
        made_since(base, g2, nodes),
{
    assert forall|k: int| 0 <= k < nodes.len() implies base <= #[trigger] nodes[k] && aim(g2, nodes[k]) by {
        assert(aim(g, nodes[k]));
    }
}

/// Statement nodes for a sequence of statements are a step; the nodes are
/// new.
pub proof fn lemma_statement_nodes<'a>(
    g: GraphModel<'a>,
    statements: Seq<&'a str>,
    i: int,
    made: Seq<u32>,
    base: nat,
    s: u32,
)
    requires
        tidy(g),
        0 <= i,
        base <= g.made,
        made_since(base, g, made),
        add_statement_nodes(g, statements, i, made) is Ok,
    ensures
        step(g, add_statement_nodes(g, statements, i, made)->Ok_0.0, base, true),
        sealing(g, add_statement_nodes(g, statements, i, made)->Ok_0.0, s),
        returning(g, add_statement_nodes(g, statements, i, made)->Ok_0.0, s),
        branching(g, add_statement_nodes(g, statements, i, made)->Ok_0.0),
        made_since(
            base,
            add_statement_nodes(g, statements, i, made)->Ok_0.0,
            add_statement_nodes(g, statements, i, made)->Ok_0.1,
        ),
        i <= statements.len() ==> add_statement_nodes(g, statements, i, made)->Ok_0.1.len() == made.len()
            + statements.len() - i,
    decreases statements.len() - i,
{
    if i < statements.len() {
        let w = crate::cfg::lowering::statement_node(statements[i]);
        lemma_node_added(g, w, s);
        let (g1, n) = g.add_node(w);
        lemma_made_since_after(base, g, g1, made);
        assert(made_since(base, g1, made.push(n)));
        lemma_statement_nodes(g1, statements, i + 1, made.push(n), base, s);
        let g2 = add_statement_nodes(g, statements, i, made)->Ok_0.0;
        lemma_steps(g, g1, g2, base, true);
    }
}

/// Linking a chain of new nodes is a step.
pub proof fn lemma_chain_linked<'a>(g: GraphModel<'a>, nodes: Seq<u32>, i: int, base: nat, s: u32)
    requires
        tidy(g),
        0 <= i,
        s < base,
        made_since(base, g, nodes),
        link_chain(g, nodes, i) is Ok,
    ensures
        step(g, link_chain(g, nodes, i)->Ok_0.0, base, true),
        sealing(g, link_chain(g, nodes, i)->Ok_0.0, s),
        returning(g, link_chain(g, nodes, i)->Ok_0.0, s),
        branching(g, link_chain(g, nodes, i)->Ok_0.0),
    decreases nodes.len() - i,
{
    if i + 1 < nodes.len() {
        assert(aim(g, nodes[i + 1]));
        assert(base <= nodes[i]);
        lemma_edge_added(g, nodes[i], nodes[i + 1], Edge::Statement, s);
        let g1 = g.add_edge(nodes[i], nodes[i + 1], Edge::Statement);
        lemma_made_since_after(base, g, g1, nodes);
        lemma_chain_linked(g1, nodes, i + 1, base, s);
        lemma_steps(g, g1, link_chain(g, nodes, i)->Ok_0.0, base, true);
    }
}

/// A chain of statement nodes is a step; the nodes are new.
pub proof fn lemma_chain_added<'a>(g: GraphModel<'a>, statements: Seq<&'a str>, s: u32)
    requires
        tidy(g),
        s < g.made,
        add_and_link(g, statements) is Ok,
    ensures
        step(g, add_and_link(g, statements)->Ok_0.0, g.made, true),
        sealing(g, add_and_link(g, statements)->Ok_0.0, s),
        returning(g, add_and_link(g, statements)->Ok_0.0, s),
        branching(g, add_and_link(g, statements)->Ok_0.0),
        made_since(g.made, add_and_link(g, statements)->Ok_0.0, add_and_link(g, statements)->Ok_0.1),
        add_and_link(g, statements)->Ok_0.1.len() == statements.len(),
{
    lemma_statement_nodes(g, statements, 0, Seq::empty(), g.made, s);
    let (g1, nodes) = add_statement_nodes(g, statements, 0, Seq::empty())->Ok_0;
    lemma_chain_linked(g1, nodes, 0, g.made, s);
    let g2 = link_chain(g1, nodes, 0)->Ok_0.0;
    lemma_made_since_after(g.made, g1, g2, nodes);
    lemma_steps(g, g1, g2, g.made, true);
}

/// Lowering a condition is a step; its decisions are new.
pub proof fn lemma_condition<'a>(g: GraphModel<'a>, c: Decision<'a>, t: u32, f: u32, s: u32)
    requires
        tidy(g),
        s < g.made,
        aim(g, t),
        aim(g, f),
        lower_condition(g, c, t, f) is Ok,
    ensures
        step(g, lower_condition(g, c, t, f)->Ok_0.0, g.made, true),
        sealing(g, lower_condition(g, c, t, f)->Ok_0.0, s),
        returning(g, lower_condition(g, c, t, f)->Ok_0.0, s),
        branching(g, lower_condition(g, c, t, f)->Ok_0.0),
        crate::cfg::trees::has_unit(c) ==> lower_condition(g, c, t, f)->Ok_0.1.len() > 0,
        lower_condition(g, c, t, f)->Ok_0.1.len() == 0 ==> lower_condition(g, c, t, f)->Ok_0.0 == g,
        made_since(g.made, lower_condition(g, c, t, f)->Ok_0.0, lower_condition(g, c, t, f)->Ok_0.1),
    decreases c,
{
    match c {
        Decision::Unit(expr) => {
            let w = crate::cfg::lowering::decision_node(expr);
            lemma_node_added(g, w, s);
            let (g1, d) = g.add_node(w);
            lemma_edge_added(g1, d, t, Edge::Decision(Direction::True), s);
            let g2 = g1.add_edge(d, t, Edge::Decision(Direction::True));
            lemma_edge_added(g2, d, f, Edge::Decision(Direction::False), s);
            let g3 = g2.add_edge(d, f, Edge::Decision(Direction::False));
            lemma_steps(g, g1, g2, g.made, true);
            lemma_steps(g, g2, g3, g.made, true);
            if decisions_branch(g) {
                lemma_absent_is_isolated(g, d);
                let et = (d, t, Edge::Decision(Direction::True));
                let ef = (d, f, Edge::Decision(Direction::False));
                assert forall|m: u32| #[trigger] g3.has_node(m) && g3.nodes[m].node_type is Decision implies two_branches(
                    g3,
                    m,
                ) by {
                    lemma_count_from_push(g.edges, et, m, Edge::Decision(Direction::True));
                    lemma_count_from_push(g.edges, et, m, Edge::Decision(Direction::False));
                    lemma_count_from_push(g.edges.push(et), ef, m, Edge::Decision(Direction::True));
                    lemma_count_from_push(g.edges.push(et), ef, m, Edge::Decision(Direction::False));
                    if m == d {
                        lemma_count_from_none(g.edges, d, Edge::Decision(Direction::True));
                        lemma_count_from_none(g.edges, d, Edge::Decision(Direction::False));
                    } else {
                        assert(g.has_node(m));
                    }
                }
            }
        },
        Decision::And(l, r) => {
            lemma_condition(g, *r, t, f, s);
            let (g1, right) = lower_condition(g, *r, t, f)->Ok_0;
            assert(aim(g1, right[0]));
            lemma_condition(g1, *l, right[0], f, s);
            let (g2, left) = lower_condition(g1, *l, right[0], f)->Ok_0;
            lemma_steps(g, g1, g2, g.made, true);
            lemma_made_since_after(g.made, g1, g2, right);
            assert(made_since(g.made, g2, left + right)) by {
                assert forall|k: int| 0 <= k < (left + right).len() implies g.made <= #[trigger] (left
                    + right)[k] && aim(g2, (left + right)[k]) by {
                    if k < left.len() {
                        assert((left + right)[k] == left[k]);
                    } else {
                        assert((left + right)[k] == right[k - left.len()]);
                    }
                }
            }
        },
        Decision::Or(l, r) => {
            lemma_condition(g, *r, t, f, s);
            let (g1, right) = lower_condition(g, *r, t, f)->Ok_0;
            assert(aim(g1, right[0]));
            lemma_condition(g1, *l, t, right[0], s);
            let (g2, left) = lower_condition(g1, *l, t, right[0])->Ok_0;
            lemma_steps(g, g1, g2, g.made, true);
            lemma_made_since_after(g.made, g1, g2, right);
            assert(made_since(g.made, g2, left + right)) by {
                assert forall|k: int| 0 <= k < (left + right).len() implies g.made <= #[trigger] (left
                    + right)[k] && aim(g2, (left + right)[k]) by {
                    if k < left.len() {
                        assert((left + right)[k] == left[k]);
                    } else {
                        assert((left + right)[k] == right[k - left.len()]);
                    }
                }
            }
        },
        Decision::Empty => {},
    }
}

/// Making a label placeholder is a step; the placeholder is new.
pub proof fn lemma_label<'a>(g: GraphModel<'a>, label: Option<&'a str>, s: u32)
    requires
        tidy(g),
        lower_label(g, label) is Ok,
    ensures
        step(g, lower_label(g, label)->Ok_0.0, g.made, true),
        sealing(g, lower_label(g, label)->Ok_0.0, s),
        returning(g, lower_label(g, label)->Ok_0.0, s),
        branching(g, lower_label(g, label)->Ok_0.0),
        lower_label(g, label)->Ok_0.1 matches Some(l) ==> l >= g.made && marks(lower_label(g, label)->Ok_0.0, l),
{
    match label {
        Some(l) => {
            lemma_node_added(g, crate::cfg::lowering::label_node(l), s);
        },
        None => {},
    }
}

/// The end of lowering a node is a step, and the `break` placeholder is
/// gone. The entry is that of the contents or the label placeholder.
pub proof fn lemma_node_finished<'a>(
    g: GraphModel<'a>,
    most_recent_node: Option<u32>,
    dummy_break: u32,
    label: Option<u32>,
    content: ProcessedNode,
    s: u32,
    base: nat,
)
    requires
        tidy(g),
        aim_if(g, most_recent_node),
        label is Some ==> marks(g, label->0),
        content matches ProcessedNode::Child(c) ==> aim(g, c),
        dummy_break != s,
        base <= dummy_break,
        finish_node(g, most_recent_node, dummy_break, label, content) is Ok,
    ensures
        ({
            let (g2, r) = finish_node(g, most_recent_node, dummy_break, label, content)->Ok_0;
            &&& step(g, g2, base, true)
            &&& sealing(g, g2, s)
            &&& returning(g, g2, s)
            &&& most_recent_node != Some(dummy_break) ==> branching(g, g2)
            &&& !g2.has_node(dummy_break)
            &&& r matches ProcessedNode::Child(n) ==> aim(g2, n) && (content == ProcessedNode::Child(n) || label
                == Some(n))
        }),
{
    let next = most_recent_node->0;
    lemma_collapsed_redirect(g, dummy_break, next, s, base);
    let g2 = g.redirect(dummy_break, next)->Ok_0.0.remove_node(dummy_break);
    match (label, content) {
        (Some(l), ProcessedNode::Child(c)) => {
            lemma_edge_added(g2, l, c, Edge::Label(LabelEdge::Next), s);
            let g3 = g2.add_edge(l, c, Edge::Label(LabelEdge::Next));
            lemma_edge_added(g3, l, next, Edge::Label(LabelEdge::Break), s);
            let g4 = g3.add_edge(l, next, Edge::Label(LabelEdge::Break));
            if l == s {
                assert(!sealed(g2, s));
                assert(!sealed(g3, s));
            }
            lemma_steps(g, g2, g3, base, true);
            lemma_steps(g, g3, g4, base, true);
        },
        _ => {},
    }
}

/// Whether each of the entries `nodes` is no source.
pub open spec fn entries_known<'a>(g: GraphModel<'a>, nodes: Seq<(u32, Exits)>) -> bool {
    forall|k: int| 0 <= k < nodes.len() ==> aim(g, (#[trigger] nodes[k]).0)
}

/// Whether none of the entries `nodes` is `s`.
pub open spec fn entries_avoid(nodes: Seq<(u32, Exits)>, s: u32) -> bool {
    forall|k: int| 0 <= k < nodes.len() ==> (#[trigger] nodes[k]).0 != s
}

/// What `entries_known` says of a graph holds of the graph after a step.
pub proof fn lemma_entries_after<'a>(g: GraphModel<'a>, g2: GraphModel<'a>, nodes: Seq<(u32, Exits)>)
    requires
        follows(g, g2),
        entries_known(g, nodes),
    ensures
        entries_known(g2, nodes),
{
    assert forall|k: int| 0 <= k < nodes.len() implies aim(g2, (#[trigger] nodes[k]).0) by {
        assert(aim(g, nodes[k].0));
    }
}

/// Linking the statements of a block is a step.
pub proof fn lemma_statements_linked<'a>(g: GraphModel<'a>, nodes: Seq<(u32, Exits)>, j: int, s: u32)
    requires
        tidy(g),
        entries_known(g, nodes),
        link_statements(g, nodes, j) is Ok,
    ensures
        step(g, link_statements(g, nodes, j)->Ok_0.0, g.made, true),
        entries_avoid(nodes, s) ==> sealing(g, link_statements(g, nodes, j)->Ok_0.0, s),
        returning(g, link_statements(g, nodes, j)->Ok_0.0, s),
        branching(g, link_statements(g, nodes, j)->Ok_0.0),
    decreases j,
{
    if 0 < j < nodes.len() {
        if nodes[j].1 == Exits::No {
            assert(aim(g, nodes[j - 1].0));
            lemma_edge_added(g, nodes[j].0, nodes[j - 1].0, Edge::Statement, s);
            let g1 = g.add_edge(nodes[j].0, nodes[j - 1].0, Edge::Statement);
            lemma_entries_after(g, g1, nodes);
            lemma_statements_linked(g1, nodes, j - 1, s);
            lemma_steps(g, g1, link_statements(g, nodes, j)->Ok_0.0, g.made, true);
        } else {
            lemma_statements_linked(g, nodes, j - 1, s);
        }
    }
}

/// The end of lowering a block is a step; the block is entered at the entry
/// of its first statement that has one.
pub proof fn lemma_block_finished<'a>(
    g: GraphModel<'a>,
    most_recent_node: Option<u32>,
    nodes: Seq<(u32, Exits)>,
    s: u32,
)
    requires
        tidy(g),
        aim_if(g, most_recent_node),
        entries_known(g, nodes),
        finish_block(g, most_recent_node, nodes) is Ok,
    ensures
        ({
            let (g2, block) = finish_block(g, most_recent_node, nodes)->Ok_0;
            &&& step(g, g2, g.made, true)
            &&& entries_avoid(nodes, s) ==> sealing(g, g2, s)
            &&& returning(g, g2, s)
            &&& branching(g, g2)
            &&& block.start() is Some <==> nodes.len() > 0
            &&& nodes.len() > 0 ==> block.start() == Some(nodes.last().0)
        }),
{
    lemma_statements_linked(g, nodes, nodes.len() - 1, s);
    let g1 = link_statements(g, nodes, nodes.len() - 1)->Ok_0.0;
    if nodes.len() > 0 && nodes[0].1 == Exits::No && most_recent_node is Some {
        lemma_entries_after(g, g1, nodes);
        assert(aim(g1, nodes[0].0));
        lemma_edge_added(g1, nodes[0].0, most_recent_node->0, Edge::Statement, s);
        lemma_steps(g, g1, g1.add_edge(nodes[0].0, most_recent_node->0, Edge::Statement), g.made, true);
    }
}

/// The node that a table names for a key is named by an entry of it.
pub proof fn lemma_lookup_aim<'a>(g: GraphModel<'a>, table: Seq<(&'a str, u32)>, key: Seq<char>)
    requires
        aims(g, table),
        lookup(table, key) is Some,
    ensures
        aim(g, lookup(table, key)->0),
    decreases table.len(),
{
    if table.len() > 0 {
        if table.last().0@ == key {
            assert(aim(g, table[table.len() - 1].1));
        } else {
            assert forall|k: int| 0 <= k < table.drop_last().len() implies aim(
                g,
                (#[trigger] table.drop_last()[k]).1,
            ) by {
                assert(table.drop_last()[k] == table[k]);
            }
            lemma_lookup_aim(g, table.drop_last(), key);
        }
    }
}

/// Where a `throw` goes is no source.
pub proof fn lemma_throw_aim<'a>(g: GraphModel<'a>, ctx: ContextModel<'a>, exceptions: Seq<&'a str>, i: int)
    requires
        known(g, ctx),
        0 <= i,
        throw_target(ctx, exceptions, i) is Some,
    ensures
        aim(g, (throw_target(ctx, exceptions, i)->0).0),
    decreases exceptions.len() - i,
{
    if i < exceptions.len() {
        match lookup(ctx.exception_nodes, exceptions[i]@) {
            Some(n) => {
                lemma_lookup_aim(g, ctx.exception_nodes, exceptions[i]@);
            },
            None => {
                lemma_throw_aim(g, ctx, exceptions, i + 1);
            },
        }
    }
}

/// Lowering a `throw` is a step; its entry is new.
pub proof fn lemma_throw<'a>(g: GraphModel<'a>, ctx: ContextModel<'a>, throw: ThrowStatement<'a>, s: u32)
    requires
        tidy(g),
        s < g.made,
        known(g, ctx),
        lower_throw(g, ctx, throw) is Ok,
    ensures
        step(g, lower_throw(g, ctx, throw)->Ok_0.0, g.made, true),
        sealing(g, lower_throw(g, ctx, throw)->Ok_0.0, s),
        returning(g, lower_throw(g, ctx, throw)->Ok_0.0, s),
        branching(g, lower_throw(g, ctx, throw)->Ok_0.0),
        lower_throw(g, ctx, throw)->Ok_0.1 is Child,
        entered(g, lower_throw(g, ctx, throw)->Ok_0.0, entry_of(lower_throw(g, ctx, throw)->Ok_0.1), None),
{
    lemma_throw_aim(g, ctx, throw.exception@, 0);
    let (target, exception) = throw_target(ctx, throw.exception@, 0)->0;
    let w = crate::cfg::lowering::exception_node(throw.statement.code);
    lemma_node_added(g, w, s);
    let (g1, n) = g.add_node(w);
    lemma_edge_added(g1, n, target, Edge::Exception { exception }, s);
    lemma_steps(g, g1, g1.add_edge(n, target, Edge::Exception { exception }), g.made, true);
}

/// Lowering a `break` or a `continue` is a step; its entry is new.
pub proof fn lemma_jump<'a>(
    g: GraphModel<'a>,
    label: Option<&'a str>,
    control: ControlType,
    target: Option<u32>,
    s: u32,
)
    requires
        tidy(g),
        s < g.made,
        aim_if(g, target),
        lower_jump(g, label, control, target) is Ok,
    ensures
        step(g, lower_jump(g, label, control, target)->Ok_0.0, g.made, true),
        sealing(g, lower_jump(g, label, control, target)->Ok_0.0, s),
        control != ControlType::Return ==> returning(g, lower_jump(g, label, control, target)->Ok_0.0, s),
        branching(g, lower_jump(g, label, control, target)->Ok_0.0),
        lower_jump(g, label, control, target)->Ok_0.1 is Child,
        entered(
            g,
            lower_jump(g, label, control, target)->Ok_0.0,
            entry_of(lower_jump(g, label, control, target)->Ok_0.1),
            None,
        ),
{
    let w = crate::cfg::lowering::control_node(label, control);
    lemma_node_added(g, w, s);
    let (g1, n) = g.add_node(w);
    match (label, target) {
        (None, Some(t)) => {
            lemma_edge_added(g1, n, t, Edge::Statement, s);
            lemma_steps(g, g1, g1.add_edge(n, t, Edge::Statement), g.made, true);
        },
        _ => {},
    }
}

/// Lowering a `return` is a step; its entry is new.
pub proof fn lemma_return<'a>(g: GraphModel<'a>, ctx: ContextModel<'a>, ret: Return<'a>, s: u32)
    requires
        tidy(g),
        s < g.made,
        known(g, ctx),
        lower_return(g, ctx, ret) is Ok,
    ensures
        step(g, lower_return(g, ctx, ret)->Ok_0.0, g.made, true),
        sealing(g, lower_return(g, ctx, ret)->Ok_0.0, s),
        ctx.sink_node == Some(s) ==> returning(g, lower_return(g, ctx, ret)->Ok_0.0, s),
        branching(g, lower_return(g, ctx, ret)->Ok_0.0),
        lower_return(g, ctx, ret)->Ok_0.1 is Child,
        entered(g, lower_return(g, ctx, ret)->Ok_0.0, entry_of(lower_return(g, ctx, ret)->Ok_0.1), None),
{
    let w = crate::cfg::lowering::control_node(ret.expression, ControlType::Return);
    lemma_node_added(g, w, s);
    let (g1, n) = g.add_node(w);
    match ctx.sink_node {
        Some(t) => {
            lemma_edge_added(g1, n, t, Edge::Statement, s);
            let g2 = g1.add_edge(n, t, Edge::Statement);
            lemma_steps(g, g1, g2, g.made, true);
            if t == s && returned(g, s) {
                assert forall|m: u32| #[trigger]
                    g2.has_node(m) && g2.nodes[m].node_type == NodeType::ControlNode(
                        ControlType::Return,
                    ) implies g2.edges.contains((m, s, Edge::Statement)) by {
                    if m == n {
                        assert(g2.edges[g2.edges.len() - 1] == (n, s, Edge::Statement));
                    } else {
                        assert(g.has_node(m));
                        let k = choose|k: int| 0 <= k < g.edges.len() && g.edges[k] == (m, s, Edge::Statement);
                        assert(g2.edges[k] == (m, s, Edge::Statement));
                    }
                }
            }
        },
        None => {},
    }
}

/// What is known of the parts of a loop when its condition is lowered: the
/// statement nodes are new, the body's entry and the continuation are no
/// sources, the label placeholder is one, and the two placeholders were made
/// for the loop.
pub open spec fn parts_known<'a>(g: GraphModel<'a>, parts: LoopParts, base: nat) -> bool {
    &&& made_since(base, g, parts.init)
    &&& made_since(base, g, parts.update)
    &&& aim(g, parts.next_node)
    &&& base <= parts.continue_node
    &&& base <= parts.dummy_target
    &&& aim_if(g, parts.block.start())
    &&& parts.block.start() is Some ==> base <= parts.block.start()->0
    &&& parts.label is Some ==> marks(g, parts.label->0)
    &&& parts.continue_node < parts.dummy_target
    &&& forall|k: int| 0 <= k < parts.update.len() ==> #[trigger] parts.update[k] < parts.continue_node
    &&& parts.block.start() is Some ==> parts.continue_node < parts.block.start()->0
}

/// What `parts_known` says of a graph holds of the graph after a step.
pub proof fn lemma_parts_after<'a>(g: GraphModel<'a>, g2: GraphModel<'a>, parts: LoopParts, base: nat)
    requires
        follows(g, g2),
        parts_known(g, parts, base),
    ensures
        parts_known(g2, parts, base),
{
    lemma_made_since_after(base, g, g2, parts.init);
    lemma_made_since_after(base, g, g2, parts.update);
}

/// Finding where the condition of a loop leads when it holds is a step up
/// to the placeholder that may be made for it.
pub proof fn lemma_true_target<'a>(g: GraphModel<'a>, parts: LoopParts, base: nat, s: u32)
    requires
        tidy(g),
        s < base <= g.made,
        parts_known(g, parts, base),
        loop_true_target(g, parts.update, parts.block) is Ok,
    ensures
        ({
            let (g1, (target, made)) = loop_true_target(g, parts.update, parts.block)->Ok_0;
            &&& step(g, g1, base, !made)
            &&& sealing(g, g1, s)
            &&& returning(g, g1, s)
            &&& branching(g, g1)
            &&& aim(g1, target)
            &&& base <= target
            &&& made ==> g1.nodes == g.nodes.insert(target, crate::cfg::lowering::true_target_placeholder())
                && !g.has_node(target)
            &&& !made ==> g1 == g
        }),
{
    match parts.block.start() {
        Some(b) => {},
        None => {
            if parts.update.len() > 0 {
                assert(aim(g, parts.update[0]));
            } else {
                lemma_node_added(g, crate::cfg::lowering::true_target_placeholder(), s);
            }
        },
    }
}

/// Whether the node that the condition of a loop leads to when it holds can
/// give way to the condition's entry without the loss of an edge: it is not
/// that entry; one made for the purpose is a sink; and with no decision no
/// edge enters it.
pub open spec fn target_ready<'a>(g: GraphModel<'a>, true_target: u32, made: bool, decisions: Seq<u32>) -> bool {
    &&& made ==> g.nodes[true_target].node_type is Sink
    &&& decisions.len() > 0 ==> true_target != decisions[0]
    &&& made && decisions.len() == 0 ==> g.incoming(true_target).len() == 0
}

/// Removing the placeholder that the condition of a loop led to is a step;
/// a placeholder that was made for the purpose is gone.
pub proof fn lemma_true_target_collapsed<'a>(
    g: GraphModel<'a>,
    true_target: u32,
    made: bool,
    decisions: Seq<u32>,
    base: nat,
    s: u32,
)
    requires
        tidy(g),
        made_since(base, g, decisions),
        s < base <= true_target,
        collapse_true_target(g, true_target, made, decisions) is Ok,
    ensures
        ({
            let g2 = collapse_true_target(g, true_target, made, decisions)->Ok_0.0;
            &&& step(g, g2, base, true)
            &&& sealing(g, g2, s)
            &&& returning(g, g2, s)
            &&& target_ready(g, true_target, made, decisions) ==> branching(g, g2)
            &&& g2.made == g.made
            &&& made ==> !g2.has_node(true_target)
        }),
{
    if g.nodes[true_target].node_type is Sink && decisions.len() > 0 {
        assert(aim(g, decisions[0]));
        lemma_collapsed_redirect(g, true_target, decisions[0], s, base);
    } else if made {
        lemma_node_removed(g, true_target, s, base);
    }
}

/// Linking the statements of a loop is a step.
pub proof fn lemma_loop_linked<'a>(
    g: GraphModel<'a>,
    parts: LoopParts,
    decisions: Seq<u32>,
    base: nat,
    s: u32,
)
    requires
        tidy(g),
        s < base,
        parts_known(g, parts, base),
        made_since(base, g, decisions),
        link_loop_statements(g, parts, decisions) is Ok,
    ensures
        step(g, link_loop_statements(g, parts, decisions)->Ok_0.0, base, true),
        sealing(g, link_loop_statements(g, parts, decisions)->Ok_0.0, s),
        returning(g, link_loop_statements(g, parts, decisions)->Ok_0.0, s),
        branching(g, link_loop_statements(g, parts, decisions)->Ok_0.0),
        link_loop_statements(g, parts, decisions)->Ok_0.0.made == g.made,
{
    let g1 = if parts.init.len() > 0 {
        let t = loop_init_target(parts.update, parts.next_node, parts.block, decisions);
        if decisions.len() > 0 {
            assert(aim(g, decisions[0]));
        } else if parts.block.start() is None && parts.update.len() > 0 {
            assert(aim(g, parts.update[0]));
        }
        assert(base <= parts.init[parts.init.len() - 1]);
        lemma_edge_added(g, parts.init.last(), t, Edge::Statement, s);
        g.add_edge(parts.init.last(), t, Edge::Statement)
    } else {
        g
    };
    if parts.update.len() > 0 {
        let t = loop_update_target(parts.block, decisions, parts.update[0]);
        lemma_made_since_after(base, g, g1, decisions);
        lemma_parts_after(g, g1, parts, base);
        if decisions.len() > 0 {
            assert(aim(g1, decisions[0]));
        } else if parts.block.start() is None {
            assert(aim(g1, parts.update[0]));
        }
        assert(base <= parts.update[parts.update.len() - 1]);
        lemma_edge_added(g1, parts.update.last(), t, Edge::Statement, s);
        lemma_steps(g, g1, g1.add_edge(parts.update.last(), t, Edge::Statement), base, true);
    }
}

/// Where a loop goes back to is no source.
pub proof fn lemma_back_target<'a>(g: GraphModel<'a>, parts: LoopParts, decisions: Seq<u32>, base: nat)
    requires
        parts_known(g, parts, base),
        made_since(base, g, decisions),
    ensures
        aim_if(g, loop_back_target(parts.update, decisions, parts.block)),
        aim_if(g, loop_root(parts.init, parts.update, decisions, parts.first_check, parts.block)),
        loop_root(parts.init, parts.update, decisions, parts.first_check, parts.block) matches Some(n) ==> base
            <= n,
{
    if parts.update.len() > 0 {
        assert(aim(g, parts.update[0]));
    }
    if decisions.len() > 0 {
        assert(aim(g, decisions[0]));
    }
    if parts.init.len() > 0 {
        assert(aim(g, parts.init[0]));
    }
}

/// The end of lowering a loop is a step; the placeholders are gone, and the
/// entry is no source.
pub proof fn lemma_loop_finished<'a>(
    g: GraphModel<'a>,
    parts: LoopParts,
    true_target: u32,
    made: bool,
    decisions: Seq<u32>,
    base: nat,
    s: u32,
)
    requires
        tidy(g),
        s < base <= g.made,
        parts_known(g, parts, base),
        made_since(base, g, decisions),
        base <= true_target,
        finish_loop(g, parts, true_target, made, decisions) is Ok,
    ensures
        ({
            let (g2, r) = finish_loop(g, parts, true_target, made, decisions)->Ok_0;
            &&& step(g, g2, base, true)
            &&& sealing(g, g2, s)
            &&& returning(g, g2, s)
            &&& target_ready(g, true_target, made, decisions) && loop_back_target(
                parts.update,
                decisions,
                parts.block,
            ) != Some(parts.continue_node) && loop_back_target(parts.update, decisions, parts.block) != Some(
                parts.dummy_target,
            ) ==> branching(g, g2)
            &&& !g2.has_node(parts.continue_node)
            &&& !g2.has_node(parts.dummy_target)
            &&& made ==> !g2.has_node(true_target)
            &&& r matches ProcessedNode::Child(n) ==> aim(g2, n) && base <= n
            &&& loop_root(parts.init, parts.update, decisions, parts.first_check, parts.block) is Some ==> r is Child
        }),
{
    lemma_true_target_collapsed(g, true_target, made, decisions, base, s);
    let g1 = collapse_true_target(g, true_target, made, decisions)->Ok_0.0;
    lemma_parts_after(g, g1, parts, base);
    lemma_made_since_after(base, g, g1, decisions);
    lemma_loop_linked(g1, parts, decisions, base, s);
    let g2 = link_loop_statements(g1, parts, decisions)->Ok_0.0;
    lemma_steps(g, g1, g2, base, true);
    lemma_parts_after(g1, g2, parts, base);
    lemma_made_since_after(base, g1, g2, decisions);
    let back = loop_back_target(parts.update, decisions, parts.block);
    lemma_back_target(g2, parts, decisions, base);
    lemma_collapsed(g2, parts.continue_node, back, s, base);
    let g3 = collapse(g2, parts.continue_node, back)->Ok_0.0;
    lemma_steps(g, g2, g3, base, true);
    lemma_parts_after(g2, g3, parts, base);
    lemma_made_since_after(base, g2, g3, decisions);
    lemma_back_target(g3, parts, decisions, base);
    lemma_collapsed(g3, parts.dummy_target, back, s, base);
    let g4 = collapse(g3, parts.dummy_target, back)->Ok_0.0;
    lemma_steps(g, g3, g4, base, true);
    lemma_parts_after(g3, g4, parts, base);
    lemma_made_since_after(base, g3, g4, decisions);
    lemma_back_target(g4, parts, decisions, base);
    assert(!g4.has_node(parts.continue_node)) by {
        if g4.has_node(parts.continue_node) {
            assert(g3.has_node(parts.continue_node));
        }
    }
    assert(made ==> !g4.has_node(true_target)) by {
        if made && g4.has_node(true_target) {
            assert(g3.has_node(true_target));
            assert(g2.has_node(true_target));
            assert(g1.has_node(true_target));
        }
    }
    match loop_root(parts.init, parts.update, decisions, parts.first_check, parts.block) {
        None => {},
        Some(root) => match (parts.label, back) {
            (Some(l), Some(t)) => {
                lemma_edge_added(g4, l, t, Edge::Label(LabelEdge::Continue), s);
                let g5 = g4.add_edge(l, t, Edge::Label(LabelEdge::Continue));
                if l == s {
                    assert(!sealed(g4, s));
                }
                lemma_steps(g, g4, g5, base, true);
            },
            _ => {},
        },
    }
}

/// Lowering the condition of a loop and finishing the loop is a step; the
/// placeholders are gone, and the entry is no source.
pub proof fn lemma_loop_condition<'a>(
    g: GraphModel<'a>,
    parts: LoopParts,
    condition: Decision<'a>,
    base: nat,
    s: u32,
)
    requires
        tidy(g),
        s < base <= g.made,
        parts_known(g, parts, base),
        parts.dummy_target < g.made,
        lower_loop_condition(g, parts, condition) is Ok,
    ensures
        ({
            let (g2, r) = lower_loop_condition(g, parts, condition)->Ok_0;
            &&& step(g, g2, base, true)
            &&& sealing(g, g2, s)
            &&& returning(g, g2, s)
            &&& parts.update.len() > 0 || crate::cfg::trees::has_unit(condition) || parts.block.start() != Some(
                parts.dummy_target,
            ) ==> branching(g, g2)
            &&& !g2.has_node(parts.continue_node)
            &&& !g2.has_node(parts.dummy_target)
            &&& r matches ProcessedNode::Child(n) ==> aim(g2, n) && base <= n
            &&& parts.init.len() > 0 || parts.update.len() > 0 || parts.block.start() is Some || (
            crate::cfg::trees::has_unit(condition) && parts.first_check) ==> r is Child
        }),
{
    lemma_true_target(g, parts, base, s);
    let (g1, (target, made)) = loop_true_target(g, parts.update, parts.block)->Ok_0;
    lemma_parts_after(g, g1, parts, base);
    lemma_condition(g1, condition, target, parts.next_node, s);
    let (g2, decisions) = lower_condition(g1, condition, target, parts.next_node)->Ok_0;
    lemma_parts_after(g1, g2, parts, base);
    assert(made_since(base, g2, decisions)) by {
        assert forall|k: int| 0 <= k < decisions.len() implies base <= #[trigger] decisions[k] && aim(
            g2,
            decisions[k],
        ) by {
            assert(g1.made <= decisions[k]);
        }
    }
    if made {
        lemma_absent_is_isolated(g, target);
        lemma_isolated_incoming(g1, target);
        assert(g2.has_node(target));
    }
    if decisions.len() > 0 {
        assert(g1.made <= decisions[0]);
    }
    if parts.update.len() > 0 {
        assert(parts.update[0] < parts.continue_node);
    }
    assert(target_ready(g2, target, made, decisions));
    lemma_loop_finished(g2, parts, target, made, decisions, base, s);
    let (g3, r) = finish_loop(g2, parts, target, made, decisions)->Ok_0;
    lemma_steps(g1, g2, g3, base, true);
    assert forall|n: u32| #[trigger] is_bracket(g3, n) implies is_bracket(g, n) by {
        assert(is_bracket(g1, n));
    }
    assert forall|n: u32| #[trigger] g3.has_node(n) && n < g.made implies g.has_node(n) && g.nodes[n]
        == g3.nodes[n] by {
        assert(g1.has_node(n));
    }
    assert forall|n: u32| #[trigger] g.has_node(n) && n < base && !(g.nodes[n].node_type is Label) implies g3.has_node(
        n,
    ) by {
        assert(g1.has_node(n));
    }
}

/// The target that is found among edges is the target of one of them.
pub proof fn lemma_first_target_member<'a>(edges: Seq<(u32, Edge<'a>)>, wanted: Edge<'a>, i: int)
    requires
        0 <= i,
        first_target(edges, wanted, i) is Some,
    ensures
        exists|k: int| i <= k < edges.len() && #[trigger] edges[k] == (first_target(edges, wanted, i)->0, wanted),
    decreases edges.len() - i,
{
    if edges[i].1 == wanted {
        assert(edges[i] == (first_target(edges, wanted, i)->0, wanted));
    } else {
        lemma_first_target_member(edges, wanted, i + 1);
    }
}

/// Whether `after` holds what `before` holds, and then only label
/// placeholders of `g`.
pub open spec fn notes_labels<'a>(g: GraphModel<'a>, before: Seq<u32>, after: Seq<u32>) -> bool {
    &&& before.len() <= after.len()
    &&& forall|k: int| 0 <= k < before.len() ==> after[k] == before[k]
    &&& forall|k: int|
        before.len() <= k < after.len() ==> g.has_node(#[trigger] after[k]) && g.nodes[after[k]].node_type is Label
}

/// Copying edges makes no node.
pub proof fn lemma_redirect_made<'a>(g: GraphModel<'a>, sources: Seq<(u32, Edge<'a>)>, i: int, t: u32)
    requires
        0 <= i,
        g.redirect_from(sources, i, t) is Ok,
    ensures
        g.redirect_from(sources, i, t)->Ok_0.0.made == g.made,
        g.redirect_from(sources, i, t)->Ok_0.0.nodes == g.nodes,
    decreases sources.len() - i,
{
    if i < sources.len() {
        lemma_redirect_made(g.add_edge(sources[i].0, t, sources[i].1), sources, i + 1, t);
    }
}

/// No edge enters a node that no edge is at.
pub proof fn lemma_isolated_incoming<'a>(g: GraphModel<'a>, p: u32)
    requires
        isolated(g, p),
    ensures
        g.incoming(p) =~= Seq::empty(),
{
    lemma_no_edges_into(g.edges, p);
}

/// No edge enters a node that is at the end of none.
pub proof fn lemma_no_edges_into<'a>(edges: Seq<(u32, u32, Edge<'a>)>, p: u32)
    requires
        forall|k: int| 0 <= k < edges.len() ==> (#[trigger] edges[k]).1 != p,
    ensures
        edges_into(edges, p) =~= Seq::empty(),
    decreases edges.len(),
{
    if edges.len() > 0 {
        assert(edges[edges.len() - 1].1 != p);
        assert forall|k: int| 0 <= k < edges.drop_last().len() implies (#[trigger] edges.drop_last()[k]).1
            != p by {
            assert(edges.drop_last()[k] == edges[k]);
        }
        lemma_no_edges_into(edges.drop_last(), p);
    }
}

/// The target of the first edge with a given payload that leaves a node is
/// a node that is no source.
pub proof fn lemma_target_aim<'a>(g: GraphModel<'a>, a: u32, w: Edge<'a>)
    requires
        tidy(g),
        first_target(g.outgoing(a), w, 0) is Some,
    ensures
        aim(g, first_target(g.outgoing(a), w, 0)->0),
        g.has_node(first_target(g.outgoing(a), w, 0)->0),
        g.has_node(a),
        w is Label ==> is_placeholder(g, a),
{
    let t = first_target(g.outgoing(a), w, 0)->0;
    lemma_first_target_member(g.outgoing(a), w, 0);
    let k = choose|k: int| 0 <= k < g.outgoing(a).len() && #[trigger] g.outgoing(a)[k] == (t, w);
    lemma_edges_from_targets(g.edges, a);
    assert(g.edges.contains((a, g.outgoing(a)[k].0, g.outgoing(a)[k].1)));
    let j = choose|j: int| 0 <= j < g.edges.len() && g.edges[j] == (a, t, w);
    assert(!(g.nodes[g.edges[j].1].node_type is Source));
    assert(g.edges[j].2 is Label ==> g.nodes[g.edges[j].0].node_type is Label);
}

/// What the walk does at a node is a step that keeps the nodes; what it
/// notes is a label placeholder.
pub proof fn lemma_walk_node<'a>(g: GraphModel<'a>, current: u32, labels: Seq<(&'a str, u32)>, s: u32)
    requires
        tidy(g),
        g.has_node(current),
        resolve_node(g, current, labels) is Ok,
    ensures
        ({
            let (g2, (scope, found)) = resolve_node(g, current, labels)->Ok_0;
            &&& step(g, g2, g.made, true)
            &&& sealing(g, g2, s)
            &&& returning(g, g2, s)
            &&& branching(g, g2)
            &&& g2.nodes == g.nodes
            &&& g2.made == g.made
            &&& forall|k: int| 0 <= k < found.len() ==> is_placeholder(g, #[trigger] found[k])
        }),
{
    let node = g.nodes[current];
    match (node.node_type, node.label) {
        (NodeType::ControlNode(control), Some(label)) => {
            match lookup(labels, label@) {
                None => {},
                Some(label_node) => {
                    let kind = if control == ControlType::Break {
                        LabelEdge::Break
                    } else {
                        LabelEdge::Continue
                    };
                    match first_target(g.outgoing(label_node), Edge::Label(kind), 0) {
                        None => {},
                        Some(target) => {
                            lemma_target_aim(g, label_node, Edge::Label(kind));
                            lemma_edge_added(g, current, target, Edge::Statement, s);
                        },
                    }
                },
            }
        },
        _ => {},
    }
}

/// The walk from a node is a step that keeps the nodes; what it notes are
/// label placeholders.
pub proof fn lemma_walk_from<'a>(
    g: GraphModel<'a>,
    universe: Set<u32>,
    current: u32,
    labels: Seq<(&'a str, u32)>,
    walk: Walk,
    s: u32,
)
    requires
        tidy(g),
        universe.finite(),
        resolve_from(g, universe, current, labels, walk) is Ok,
    ensures
        ({
            let (g2, after) = resolve_from(g, universe, current, labels, walk)->Ok_0;
            &&& step(g, g2, g.made, true)
            &&& sealing(g, g2, s)
            &&& returning(g, g2, s)
            &&& branching(g, g2)
            &&& g2.nodes == g.nodes
            &&& g2.made == g.made
            &&& notes_labels(g, walk.found, after.found)
        }),
    decreases universe.difference(walk.visited).len(), 0nat,
{
    if !walk.visited.contains(current) {
        lemma_walk_node(g, current, labels, s);
        let (g1, (scope, found)) = resolve_node(g, current, labels)->Ok_0;
        let next = Walk { visited: walk.visited.insert(current), found: walk.found + found };
        let before = universe.difference(walk.visited);
        let after = universe.difference(walk.visited.insert(current));
        assert(after =~= before.remove(current));
        assert(before.contains(current));
        lemma_walk_successors(g1, universe, successors(g1, current), 0, scope, next, s);
        let (g2, done) = resolve_from(g, universe, current, labels, walk)->Ok_0;
        lemma_steps(g, g1, g2, g.made, true);
        assert forall|k: int| 0 <= k < walk.found.len() implies done.found[k] == walk.found[k] by {
            assert(next.found[k] == walk.found[k]);
        }
        assert forall|k: int| walk.found.len() <= k < done.found.len() implies g.has_node(
            #[trigger] done.found[k],
        ) && g.nodes[done.found[k]].node_type is Label by {
            if k < next.found.len() {
                assert(done.found[k] == next.found[k]);
                assert(next.found[k] == found[k - walk.found.len()]);
                assert(is_placeholder(g, found[k - walk.found.len()]));
            }
        }
    }
}

/// The walk from each of several nodes is a step that keeps the nodes; what
/// it notes are label placeholders.
pub proof fn lemma_walk_successors<'a>(
    g: GraphModel<'a>,
    universe: Set<u32>,
    targets: Seq<u32>,
    i: int,
    labels: Seq<(&'a str, u32)>,
    walk: Walk,
    s: u32,
)
    requires
        tidy(g),
        universe.finite(),
        0 <= i,
        resolve_successors(g, universe, targets, i, labels, walk) is Ok,
    ensures
        ({
            let (g2, after) = resolve_successors(g, universe, targets, i, labels, walk)->Ok_0;
            &&& step(g, g2, g.made, true)
            &&& sealing(g, g2, s)
            &&& returning(g, g2, s)
            &&& branching(g, g2)
            &&& g2.nodes == g.nodes
            &&& g2.made == g.made
            &&& notes_labels(g, walk.found, after.found)
        }),
    decreases universe.difference(walk.visited).len(), 1 + targets.len() - i,
{
    if i < targets.len() {
        lemma_walk_from(g, universe, targets[i], labels, walk, s);
        let (g1, one) = resolve_from(g, universe, targets[i], labels, walk)->Ok_0;
        let next = Walk { visited: walk.visited.union(one.visited), found: one.found };
        let before = universe.difference(walk.visited);
        let later = universe.difference(next.visited);
        assert(later.subset_of(before));
        vstd::set_lib::lemma_len_subset(later, before);
        lemma_walk_successors(g1, universe, targets, i + 1, labels, next, s);
        let (g2, done) = resolve_successors(g, universe, targets, i, labels, walk)->Ok_0;
        lemma_steps(g, g1, g2, g.made, true);
        assert forall|k: int| 0 <= k < walk.found.len() implies done.found[k] == walk.found[k] by {
            assert(one.found[k] == walk.found[k]);
        }
        assert forall|k: int| walk.found.len() <= k < done.found.len() implies g.has_node(
            #[trigger] done.found[k],
        ) && g.nodes[done.found[k]].node_type is Label by {
            if k < one.found.len() {
                assert(done.found[k] == one.found[k]);
            }
        }
    }
}

/// Taking a label placeholder out is a step, and the placeholder is gone.
pub proof fn lemma_label_removed<'a>(g: GraphModel<'a>, p: u32, s: u32)
    requires
        tidy(g),
        is_placeholder(g, p) || !g.has_node(p),
        remove_label(g, p) is Ok,
    ensures
        step(g, remove_label(g, p)->Ok_0.0, g.made, true),
        sealing(g, remove_label(g, p)->Ok_0.0, s),
        returning(g, remove_label(g, p)->Ok_0.0, s),
        branching(g, remove_label(g, p)->Ok_0.0),
        remove_label(g, p)->Ok_0.0.nodes =~= g.nodes.remove(p),
        remove_label(g, p)->Ok_0.0.made == g.made,
{
    let target = first_target(g.outgoing(p), Edge::Label(LabelEdge::Next), 0);
    if target is Some {
        lemma_target_aim(g, p, Edge::Label(LabelEdge::Next));
    }
    lemma_collapsed(g, p, target, s, g.made);
    if p == s {
        assert(!sealed(g, s));
    }
}

/// Taking label placeholders out is a step.
pub proof fn lemma_labels_removed<'a>(g: GraphModel<'a>, found: Seq<u32>, i: int, s: u32)
    requires
        tidy(g),
        0 <= i,
        forall|k: int| i <= k < found.len() && g.has_node(#[trigger] found[k]) ==> g.nodes[found[k]].node_type is Label,
        remove_labels(g, found, i) is Ok,
    ensures
        step(g, remove_labels(g, found, i)->Ok_0.0, g.made, true),
        sealing(g, remove_labels(g, found, i)->Ok_0.0, s),
        returning(g, remove_labels(g, found, i)->Ok_0.0, s),
        branching(g, remove_labels(g, found, i)->Ok_0.0),
        remove_labels(g, found, i)->Ok_0.0.made == g.made,
    decreases found.len() - i,
{
    if i < found.len() {
        lemma_label_removed(g, found[i], s);
        let g1 = remove_label(g, found[i])->Ok_0.0;
        assert forall|k: int| i + 1 <= k < found.len() && g1.has_node(#[trigger] found[k]) implies g1.nodes[found[k]].node_type is Label by {
            assert(g.has_node(found[k]));
        }
        lemma_labels_removed(g1, found, i + 1, s);
        lemma_steps(g, g1, remove_labels(g, found, i)->Ok_0.0, g.made, true);
    }
}

/// Taking out the label placeholders in a range of indices is a step, and
/// no placeholder is left in the range.
pub proof fn lemma_swept<'a>(g: GraphModel<'a>, i: u32, end: u32, s: u32)
    requires
        tidy(g),
        sweep_labels(g, i, end) is Ok,
    ensures
        step(g, sweep_labels(g, i, end)->Ok_0.0, g.made, true),
        sealing(g, sweep_labels(g, i, end)->Ok_0.0, s),
        returning(g, sweep_labels(g, i, end)->Ok_0.0, s),
        branching(g, sweep_labels(g, i, end)->Ok_0.0),
        sweep_labels(g, i, end)->Ok_0.0.made == g.made,
        forall|n: u32| i <= n < end ==> !#[trigger] is_placeholder(sweep_labels(g, i, end)->Ok_0.0, n),
    decreases end - i,
{
    if i < end {
        let g1 = if is_placeholder(g, i) {
            lemma_label_removed(g, i, s);
            remove_label(g, i)->Ok_0.0
        } else {
            g
        };
        let next = (i + 1) as u32;
        lemma_swept(g1, next, end, s);
        let g2 = sweep_labels(g, i, end)->Ok_0.0;
        lemma_steps(g, g1, g2, g.made, true);
        assert forall|n: u32| i <= n < end implies !#[trigger] is_placeholder(g2, n) by {
            if n == i {
                if g2.has_node(i) {
                    assert(g1.has_node(i));
                }
            } else {
                assert(next <= n);
            }
        }
    }
}

/// The pass that resolves the labels is a step, and it leaves no label
/// placeholder that was made since the node at which it starts.
pub proof fn lemma_labels_resolved<'a>(g: GraphModel<'a>, start: u32, s: u32)
    requires
        tidy(g),
        resolve_labels(g, start) is Ok,
    ensures
        step(g, resolve_labels(g, start)->Ok_0.0, g.made, true),
        sealing(g, resolve_labels(g, start)->Ok_0.0, s),
        returning(g, resolve_labels(g, start)->Ok_0.0, s),
        branching(g, resolve_labels(g, start)->Ok_0.0),
        forall|n: u32| start <= n ==> !#[trigger] is_placeholder(resolve_labels(g, start)->Ok_0.0, n),
{
    let start_walk = Walk { visited: Set::empty(), found: Seq::empty() };
    lemma_walk_from(g, g.nodes.dom(), start, Seq::empty(), start_walk, s);
    let (g1, walk) = resolve_from(g, g.nodes.dom(), start, Seq::empty(), start_walk)->Ok_0;
    lemma_labels_removed(g1, walk.found, 0, s);
    let g2 = remove_labels(g1, walk.found, 0)->Ok_0.0;
    lemma_steps(g, g1, g2, g.made, true);
    lemma_swept(g2, start, g2.made as u32, s);
    let g3 = sweep_labels(g2, start, g2.made as u32)->Ok_0.0;
    lemma_steps(g, g2, g3, g.made, true);
    assert forall|n: u32| start <= n implies !#[trigger] is_placeholder(g3, n) by {
        if g3.has_node(n) {
            assert(n < g3.made);
        }
    }
}

/// Whether the index `n` was made at or after `base` or is `next`.
pub open spec fn near(n: u32, base: nat, next: Option<u32>) -> bool {
    base <= n || next == Some(n)
}

/// Whether each of the entries `nodes` is as `near` says.
pub open spec fn entries_near(nodes: Seq<(u32, Exits)>, base: nat, next: Option<u32>) -> bool {
    forall|k: int| 0 <= k < nodes.len() ==> near((#[trigger] nodes[k]).0, base, next)
}

/// Lowering a node is a step; its entry is new or the continuation.
pub proof fn lemma_node<'a>(g: GraphModel<'a>, ctx: ContextModel<'a>, node: AstNode<'a>, s: u32)
    requires
        tidy(g),
        s < g.made,
        known(g, ctx),
        lower_node(g, ctx, node) is Ok,
    ensures
        ({
            let (g2, r) = lower_node(g, ctx, node)->Ok_0;
            &&& step(g, g2, g.made, flat_node(node))
            &&& anchored_node(node) || ctx.most_recent_node != Some(s) ==> sealing(g, g2, s) && entry_of(r)
                != Some(s)
            &&& homing_node(node, ctx.sink_node == Some(s)) ==> returning(g, g2, s)
            &&& steady_node(node) ==> branching(g, g2)
            &&& entered(g, g2, entry_of(r), ctx.most_recent_node)
            &&& node_yields(node) ==> r is Child
        }),
    decreases node, 0nat,
{
    let flat = flat_node(node);
    let w = crate::cfg::lowering::break_placeholder();
    lemma_node_added(g, w, s);
    let (g1, dummy_break) = g.add_node(w);
    lemma_label(g1, node.label, s);
    let (g2, label) = lower_label(g1, node.label)->Ok_0;
    let inner = ContextModel {
        label,
        nearest_breakable_node: if crate::cfg::lowering::is_breakable(node) {
            Some(dummy_break)
        } else {
            ctx.nearest_breakable_node
        },
        ..ctx
    };
    lemma_known_after(g, g1, ctx);
    lemma_known_after(g1, g2, ctx);
    assert(aim(g1, dummy_break));
    assert(known(g2, inner));
    lemma_contents(g2, inner, node.contents, s);
    let (g3, content) = lower_contents(g2, inner, node.contents)->Ok_0;
    lemma_known_after(g2, g3, inner);
    lemma_node_finished(g3, ctx.most_recent_node, dummy_break, label, content, s, g.made);
    let (g4, r) = finish_node(g3, ctx.most_recent_node, dummy_break, label, content)->Ok_0;
    assert(step(g, g2, g.made, false)) by {
        lemma_steps(g, g1, g2, g.made, false);
    }
    assert(step(g, g3, g.made, false)) by {
        lemma_steps(g, g2, g3, g.made, false);
    }
    assert(step(g, g4, g.made, false)) by {
        lemma_steps(g, g3, g4, g.made, false);
    }
    if flat {
        assert forall|n: u32| #[trigger] is_bracket(g4, n) implies is_bracket(g, n) by {
            assert(is_bracket(g3, n));
            assert(is_bracket(g2, n));
            assert(is_bracket(g1, n));
        }
    }
}

/// Lowering what a node holds is a step; the entry is new or the
/// continuation.
pub proof fn lemma_contents<'a>(g: GraphModel<'a>, ctx: ContextModel<'a>, contents: AstNodeContents<'a>, s: u32)
    requires
        tidy(g),
        s < g.made,
        known(g, ctx),
        lower_contents(g, ctx, contents) is Ok,
    ensures
        ({
            let (g2, r) = lower_contents(g, ctx, contents)->Ok_0;
            &&& step(g, g2, g.made, flat_contents(contents))
            &&& quiet_contents(contents) || ctx.most_recent_node != Some(s) ==> sealing(g, g2, s)
            &&& anchored_contents(contents) || ctx.most_recent_node != Some(s) ==> entry_of(r) != Some(s)
            &&& homing_contents(contents, ctx.sink_node == Some(s)) ==> returning(g, g2, s)
            &&& steady_contents(contents) ==> branching(g, g2)
            &&& entered(g, g2, entry_of(r), ctx.most_recent_node)
            &&& contents_yields(contents) ==> r is Child
        }),
    decreases contents, 0nat,
{
    match contents {
        AstNodeContents::FunctionBlock(f) => {
            lemma_function(g, ctx, f, s);
        },
        AstNodeContents::LoopBlock(l) => {
            lemma_loop(g, ctx, l, s);
        },
        AstNodeContents::DecisionBlock(d) => {
            lemma_decision_block(g, ctx, d, s);
        },
        AstNodeContents::TryBlock(t) => {
            lemma_try(g, ctx, t, s);
        },
        AstNodeContents::ThrowStatement(t) => {
            lemma_throw(g, ctx, t, s);
        },
        AstNodeContents::Statement(st) => {
            lemma_node_added(g, crate::cfg::lowering::statement_node(st.statement.code), s);
        },
        AstNodeContents::Break(b) => {
            lemma_jump(g, b.label, ControlType::Break, ctx.nearest_breakable_node, s);
        },
        AstNodeContents::Continue(c) => {
            lemma_jump(g, c.label, ControlType::Continue, ctx.nearest_continuable_node, s);
        },
        AstNodeContents::Return(r) => {
            lemma_return(g, ctx, r, s);
        },
        AstNodeContents::Block(b) => {
            lemma_block(g, ctx, b, s);
        },
        _ => {},
    }
}

/// Lowering statements is a step; their entries are new or the
/// continuation of the block.
pub proof fn lemma_statements<'a>(
    g: GraphModel<'a>,
    ctx: ContextModel<'a>,
    statements: Seq<AstNode<'a>>,
    i: int,
    nodes: Seq<(u32, Exits)>,
    s: u32,
    base: nat,
    next: Option<u32>,
    flat: bool,
    steady: bool,
    seal: bool,
    home: bool,
)
    requires
        tidy(g),
        s < base <= g.made,
        known(g, ctx),
        0 <= i <= statements.len(),
        flat ==> forall|k: int| 0 <= k < i ==> flat_node(#[trigger] statements[k]),
        home ==> forall|k: int|
            0 <= k < i ==> homing_node(#[trigger] statements[k], ctx.sink_node == Some(s)),
        steady ==> forall|k: int| 0 <= k < i ==> steady_node(#[trigger] statements[k]),
        seal ==> ctx.most_recent_node != Some(s) || anchored_statements(statements, i),
        seal ==> entries_avoid(nodes, s),
        entries_known(g, nodes),
        entries_near(nodes, base, next),
        ctx.most_recent_node == next || (ctx.most_recent_node matches Some(m) && near(m, base, next)),
        lower_statements(g, ctx, statements, i, nodes) is Ok,
    ensures
        ({
            let (g2, out) = lower_statements(g, ctx, statements, i, nodes)->Ok_0;
            &&& step(g, g2, base, flat)
            &&& seal ==> sealing(g, g2, s) && entries_avoid(out, s)
            &&& home ==> returning(g, g2, s)
            &&& steady ==> branching(g, g2)
            &&& entries_known(g2, out)
            &&& entries_near(out, base, next)
            &&& nodes.len() > 0 || (exists|k: int| 0 <= k < i && node_yields(#[trigger] statements[k]))
                ==> out.len() > 0
        }),
    decreases statements, i,
{
    if i > 0 {
        let statement = statements[i - 1];
        lemma_node(g, ctx, statement, s);
        let (g1, r) = lower_node(g, ctx, statement)->Ok_0;
        let (g2, out) = lower_statements(g, ctx, statements, i, nodes)->Ok_0;
        lemma_entries_after(g, g1, nodes);
        lemma_known_after(g, g1, ctx);
        assert(flat ==> flat_node(statement));
        assert(home ==> homing_node(statement, ctx.sink_node == Some(s)));
        assert(steady ==> steady_node(statement));
        assert(step(g, g1, base, flat));
        match r {
            ProcessedNode::Child(n) => {
                let next_ctx = ContextModel { most_recent_node: Some(n), ..ctx };
                let next_nodes = nodes.push((n, crate::cfg::lowering::exits_of(statement)));
                assert(near(n, base, next));
                assert(entries_known(g1, next_nodes)) by {
                    assert forall|k: int| 0 <= k < next_nodes.len() implies aim(
                        g1,
                        (#[trigger] next_nodes[k]).0,
                    ) by {
                        if k < nodes.len() {
                            assert(next_nodes[k] == nodes[k]);
                        }
                    }
                }
                assert(entries_near(next_nodes, base, next)) by {
                    assert forall|k: int| 0 <= k < next_nodes.len() implies near(
                        (#[trigger] next_nodes[k]).0,
                        base,
                        next,
                    ) by {
                        if k < nodes.len() {
                            assert(next_nodes[k] == nodes[k]);
                        }
                    }
                }
                if seal {
                    assert(n != s);
                    assert forall|k: int| 0 <= k < next_nodes.len() implies (#[trigger] next_nodes[k]).0 != s by {
                        if k < nodes.len() {
                            assert(next_nodes[k] == nodes[k]);
                        }
                    }
                }
                lemma_statements(g1, next_ctx, statements, i - 1, next_nodes, s, base, next, flat, steady, seal, home);
                lemma_steps(g, g1, g2, base, flat);
            },
            ProcessedNode::Root => {
                lemma_statements(g1, ctx, statements, i - 1, nodes, s, base, next, flat, steady, seal, home);
                lemma_steps(g, g1, g2, base, flat);
                if exists|k: int| 0 <= k < i && node_yields(#[trigger] statements[k]) {
                    let k = choose|k: int| 0 <= k < i && node_yields(#[trigger] statements[k]);
                    assert(k != i - 1);
                    assert(0 <= k < i - 1 && node_yields(statements[k]));
                }
            },
        }
    }
}

/// Lowering a block is a step; its entry is new or the continuation.
pub proof fn lemma_block<'a>(g: GraphModel<'a>, ctx: ContextModel<'a>, block: Block<'a>, s: u32)
    requires
        tidy(g),
        s < g.made,
        known(g, ctx),
        lower_block(g, ctx, block) is Ok,
    ensures
        ({
            let (g2, r) = lower_block(g, ctx, block)->Ok_0;
            &&& step(g, g2, g.made, flat_block(block))
            &&& anchored_block(block) || ctx.most_recent_node != Some(s) ==> sealing(g, g2, s) && r.start()
                != Some(s)
            &&& homing_block(block, ctx.sink_node == Some(s)) ==> returning(g, g2, s)
            &&& steady_block(block) ==> branching(g, g2)
            &&& entered(g, g2, r.start(), ctx.most_recent_node)
            &&& block_yields(block) ==> r.start() is Some
        }),
    decreases block, 0nat,
{
    let flat = flat_block(block);
    let steady = steady_block(block);
    let seal = anchored_block(block) || ctx.most_recent_node != Some(s);
    let statements = block.statements@;
    lemma_statements(
        g,
        ctx,
        statements,
        statements.len() as int,
        Seq::empty(),
        s,
        g.made,
        ctx.most_recent_node,
        flat,
        steady,
        seal,
        homing_block(block, ctx.sink_node == Some(s)),
    );
    let (g1, nodes) = lower_statements(g, ctx, statements, statements.len() as int, Seq::empty())->Ok_0;
    lemma_known_after(g, g1, ctx);
    lemma_block_finished(g1, ctx.most_recent_node, nodes, s);
    let (g2, r) = finish_block(g1, ctx.most_recent_node, nodes)->Ok_0;
    lemma_steps(g, g1, g2, g.made, flat);
    if nodes.len() > 0 {
        let n = nodes[nodes.len() - 1].0;
        assert(aim(g1, n));
        assert(near(n, g.made, ctx.most_recent_node));
    }
}

/// Lowering a function is a step; a function has no entry.
pub proof fn lemma_function<'a>(g: GraphModel<'a>, ctx: ContextModel<'a>, f: FunctionBlock<'a>, s: u32)
    requires
        tidy(g),
        s < g.made,
        known(g, ctx),
        lower_function(g, ctx, f) is Ok,
    ensures
        ({
            let (g2, r) = lower_function(g, ctx, f)->Ok_0;
            &&& step(g, g2, g.made, false)
            &&& sealing(g, g2, s)
            &&& homing_block(f.block, false) ==> returning(g, g2, s)
            &&& steady_block(f.block) ==> branching(g, g2)
            &&& r is Root
        }),
    decreases f, 0nat,
{
    lemma_node_added(g, crate::cfg::lowering::source_node(f.name), s);
    let (g1, source) = g.add_node(crate::cfg::lowering::source_node(f.name));
    lemma_node_added(g1, crate::cfg::lowering::sink_node(f.name), s);
    let (g2, sink) = g1.add_node(crate::cfg::lowering::sink_node(f.name));
    lemma_steps(g, g1, g2, g.made, false);
    let inner = ContextModel { sink_node: Some(sink), most_recent_node: Some(sink), ..ctx };
    lemma_known_after(g, g1, ctx);
    lemma_known_after(g1, g2, ctx);
    assert(known(g2, inner));
    lemma_block(g2, inner, f.block, s);
    let (g3, block) = lower_block(g2, inner, f.block)->Ok_0;
    lemma_steps(g, g2, g3, g.made, false);
    let g4 = match block.start() {
        Some(start) => {
            lemma_edge_added(g3, source, start, Edge::Statement, s);
            g3.add_edge(source, start, Edge::Statement)
        },
        None => g3,
    };
    lemma_steps(g, g3, g4, g.made, false);
    lemma_labels_resolved(g4, source, s);
    lemma_steps(g, g4, lower_function(g, ctx, f)->Ok_0.0, g.made, false);
}

/// Lowering a loop is a step; its entry is new.
pub proof fn lemma_loop<'a>(g: GraphModel<'a>, ctx: ContextModel<'a>, lp: LoopBlock<'a>, s: u32)
    requires
        tidy(g),
        s < g.made,
        known(g, ctx),
        lower_loop(g, ctx, lp) is Ok,
    ensures
        ({
            let (g2, r) = lower_loop(g, ctx, lp)->Ok_0;
            &&& step(g, g2, g.made, flat_block(lp.block))
            &&& sealing(g, g2, s)
            &&& homing_block(lp.block, ctx.sink_node == Some(s)) ==> returning(g, g2, s)
            &&& steady_contents(AstNodeContents::LoopBlock(lp)) ==> branching(g, g2)
            &&& entered(g, g2, entry_of(r), None)
            &&& contents_yields(AstNodeContents::LoopBlock(lp)) ==> r is Child
        }),
    decreases lp, 0nat,
{
    let flat = flat_block(lp.block);
    let base = g.made;
    lemma_chain_added(g, lp.initialization@, s);
    let (g1, init) = add_and_link(g, lp.initialization@)->Ok_0;
    lemma_chain_added(g1, lp.update@, s);
    let (g2, update) = add_and_link(g1, lp.update@)->Ok_0;
    lemma_steps(g, g1, g2, base, true);
    let next_node = ctx.most_recent_node->0;
    lemma_node_added(g2, crate::cfg::lowering::continue_placeholder(), s);
    let (g3, continue_node) = g2.add_node(crate::cfg::lowering::continue_placeholder());
    lemma_node_added(g3, crate::cfg::lowering::target_placeholder(), s);
    let (g4, dummy_target) = g3.add_node(crate::cfg::lowering::target_placeholder());
    lemma_steps(g, g2, g3, base, false);
    lemma_steps(g, g3, g4, base, false);
    let inner = ContextModel {
        most_recent_node: Some(dummy_target),
        nearest_continuable_node: Some(continue_node),
        ..ctx
    };
    lemma_known_after(g, g4, ctx);
    assert(known(g4, inner));
    lemma_block(g4, inner, lp.block, s);
    lemma_block(g4, inner, lp.block, dummy_target);
    let (g5, block) = lower_block(g4, inner, lp.block)->Ok_0;
    lemma_steps(g, g4, g5, base, false);
    let parts = LoopParts {
        init,
        update,
        next_node,
        continue_node,
        dummy_target,
        block,
        first_check: lp.first_iteration_condition_check,
        label: ctx.label,
    };
    lemma_made_since_after(base, g1, g5, init);
    assert(made_since(base, g2, update)) by {
        assert forall|k: int| 0 <= k < update.len() implies base <= #[trigger] update[k] && aim(g2, update[k]) by {
            assert(g1.made <= update[k]);
        }
    }
    lemma_made_since_after(base, g2, g5, update);
    lemma_known_after(g, g5, ctx);
    assert(parts_known(g5, parts, base));
    lemma_loop_condition(g5, parts, lp.condition, base, s);
    let (g6, r) = lower_loop_condition(g5, parts, lp.condition)->Ok_0;
    lemma_steps(g, g5, g6, base, false);
    if flat {
        assert forall|n: u32| #[trigger] is_bracket(g6, n) implies is_bracket(g, n) by {
            assert(is_bracket(g5, n));
            assert(is_bracket(g4, n));
            assert(is_bracket(g3, n) || n == dummy_target);
            assert(is_bracket(g2, n) || n == continue_node || n == dummy_target);
            if is_bracket(g2, n) {
                assert(is_bracket(g1, n));
            }
        }
    }
}

/// Lowering the `else` of a branch is a step; what it leads to is new or
/// the continuation.
pub proof fn lemma_else<'a>(g: GraphModel<'a>, ctx: ContextModel<'a>, node: AstNode<'a>, next_node: u32, s: u32)
    requires
        tidy(g),
        s < g.made,
        known(g, ctx),
        ctx.most_recent_node == Some(next_node),
        lower_else(g, ctx, node, next_node) is Ok,
    ensures
        ({
            let (g2, t) = lower_else(g, ctx, node, next_node)->Ok_0;
            &&& step(g, g2, g.made, flat_node(node))
            &&& anchored_node(node) || ctx.most_recent_node != Some(s) ==> sealing(g, g2, s)
            &&& homing_node(node, ctx.sink_node == Some(s)) ==> returning(g, g2, s)
            &&& steady_node(node) ==> branching(g, g2)
            &&& aim(g2, t)
            &&& t >= g.made || t == next_node
        }),
    decreases node, 1nat,
{
    lemma_node(g, ctx, node, s);
    let (g1, r) = lower_node(g, ctx, node)->Ok_0;
    lemma_known_after(g, g1, ctx);
    match r {
        ProcessedNode::Root => {},
        ProcessedNode::Child(n) => {
            if crate::cfg::lowering::exits_of(node) == Exits::No {
                lemma_edge_added(g1, n, next_node, Edge::Statement, s);
                let g2 = g1.add_edge(n, next_node, Edge::Statement);
                assert(step(g1, g2, g.made, flat_node(node)));
                lemma_steps(g, g1, g2, g.made, flat_node(node));
            }
        },
    }
}

/// Lowering a branch is a step; its entry is new or the continuation.
pub proof fn lemma_decision_block<'a>(g: GraphModel<'a>, ctx: ContextModel<'a>, d: DecisionBlock<'a>, s: u32)
    requires
        tidy(g),
        s < g.made,
        known(g, ctx),
        lower_decision_block(g, ctx, d) is Ok,
    ensures
        ({
            let (g2, r) = lower_decision_block(g, ctx, d)->Ok_0;
            &&& step(
                g,
                g2,
                g.made,
                flat_contents(AstNodeContents::DecisionBlock(d)),
            )
            &&& anchored_contents(AstNodeContents::DecisionBlock(d)) || ctx.most_recent_node != Some(s)
                ==> sealing(g, g2, s) && entry_of(r) != Some(s)
            &&& homing_contents(AstNodeContents::DecisionBlock(d), ctx.sink_node == Some(s)) ==> returning(
                g,
                g2,
                s,
            )
            &&& steady_contents(AstNodeContents::DecisionBlock(d)) ==> branching(g, g2)
            &&& entered(
                g,
                g2,
                entry_of(r),
                ctx.most_recent_node,
            )
            &&& contents_yields(AstNodeContents::DecisionBlock(d)) ==> r is Child
        }),
    decreases d, 0nat,
{
    let flat = flat_contents(AstNodeContents::DecisionBlock(d));
    let next_node = ctx.most_recent_node->0;
    let (g1, false_target) = match d.else_node {
        Some(e) => {
            lemma_else(g, ctx, *e, next_node, s);
            lower_else(g, ctx, *e, next_node)->Ok_0
        },
        None => (g, next_node),
    };
    assert(step(g, g1, g.made, flat));
    lemma_known_after(g, g1, ctx);
    lemma_block(g1, ctx, d.block, s);
    let (g2, block) = lower_block(g1, ctx, d.block)->Ok_0;
    lemma_steps(g, g1, g2, g.made, flat);
    lemma_known_after(g1, g2, ctx);
    let true_target = match block.start() {
        Some(n) => n,
        None => next_node,
    };
    assert(aim(g2, false_target));
    lemma_condition(g2, d.condition, true_target, false_target, s);
    let (g3, decisions) = lower_condition(g2, d.condition, true_target, false_target)->Ok_0;
    lemma_steps(g, g2, g3, g.made, flat);
    if decisions.len() > 0 {
        assert(aim(g3, decisions[0]));
        assert(g2.made <= decisions[0]);
    }
}

/// The entries that a handler adds to a table name what the handler is
/// entered at.
pub proof fn lemma_entries_aim<'a>(
    g: GraphModel<'a>,
    table: Seq<(&'a str, u32)>,
    exceptions: Seq<&'a str>,
    i: int,
    target: u32,
)
    requires
        0 <= i,
        aims(g, table),
        aim(g, target),
    ensures
        aims(g, catch_entries(table, exceptions, i, target)),
    decreases exceptions.len() - i,
{
    if i < exceptions.len() {
        let next = table.push((exceptions[i], target));
        assert forall|k: int| 0 <= k < next.len() implies aim(g, (#[trigger] next[k]).1) by {
            if k < table.len() {
                assert(next[k] == table[k]);
            }
        }
        lemma_entries_aim(g, next, exceptions, i + 1, target);
    }
}

/// What `aims` says of a graph holds of the graph after a step.
pub proof fn lemma_aims_after<'a>(g: GraphModel<'a>, g2: GraphModel<'a>, table: Seq<(&'a str, u32)>)
    requires
        follows(g, g2),
        aims(g, table),
    ensures
        aims(g2, table),
{
    assert forall|k: int| 0 <= k < table.len() implies aim(g2, (#[trigger] table[k]).1) by {
        assert(aim(g, table[k].1));
    }
}

/// Lowering handlers is a step; every entry of the exception table names a
/// node that is no source.
pub proof fn lemma_catches<'a>(
    g: GraphModel<'a>,
    ctx: ContextModel<'a>,
    catches: Seq<CatchBlock<'a>>,
    i: int,
    next_node: u32,
    table: Seq<(&'a str, u32)>,
    s: u32,
    base: nat,
    flat: bool,
    steady: bool,
    seal: bool,
    home: bool,
)
    requires
        tidy(g),
        s < base <= g.made,
        known(g, ctx),
        0 <= i <= catches.len(),
        flat ==> forall|k: int| 0 <= k < i ==> flat_block((#[trigger] catches[k]).block),
        home ==> forall|k: int|
            0 <= k < i ==> homing_block((#[trigger] catches[k]).block, ctx.sink_node == Some(s)),
        steady ==> forall|k: int| 0 <= k < i ==> steady_block((#[trigger] catches[k]).block),
        seal ==> ctx.most_recent_node != Some(s) || forall|k: int|
            0 <= k < i ==> anchored_block((#[trigger] catches[k]).block),
        aim(g, next_node),
        aims(g, table),
        lower_catches(g, ctx, catches, i, next_node, table) is Ok,
    ensures
        ({
            let (g2, out) = lower_catches(g, ctx, catches, i, next_node, table)->Ok_0;
            &&& step(g, g2, base, flat)
            &&& seal ==> sealing(g, g2, s)
            &&& home ==> returning(g, g2, s)
            &&& steady ==> branching(g, g2)
            &&& aims(g2, out)
        }),
    decreases catches, i,
{
    if i > 0 {
        let catch = catches[i - 1];
        lemma_block(g, ctx, catch.block, s);
        let (g1, block) = lower_block(g, ctx, catch.block)->Ok_0;
        let handler = match block.start() {
            Some(n) => n,
            None => next_node,
        };
        assert(flat ==> flat_block(catch.block));
        assert(steady ==> steady_block(catch.block));
        assert(home ==> homing_block(catch.block, ctx.sink_node == Some(s)));
        assert(seal ==> ctx.most_recent_node != Some(s) || anchored_block(catch.block));
        assert(step(g, g1, base, flat));
        lemma_aims_after(g, g1, table);
        lemma_entries_aim(g1, table, catch.exception_types@, 0, handler);
        lemma_known_after(g, g1, ctx);
        let next_table = catch_entries(table, catch.exception_types@, 0, handler);
        lemma_catches(g1, ctx, catches, i - 1, next_node, next_table, s, base, flat, steady, seal, home);
        lemma_steps(g, g1, lower_catches(g, ctx, catches, i, next_node, table)->Ok_0.0, base, flat);
    }
}

/// Lowering the handlers and the body of a `try` is a step; its entry is
/// new or the continuation.
pub proof fn lemma_try_body<'a>(
    g: GraphModel<'a>,
    ctx: ContextModel<'a>,
    t: TryBlock<'a>,
    next_node: u32,
    s: u32,
    base: nat,
    flat: bool,
    steady: bool,
    seal: bool,
    fresh: bool,
    home: bool,
)
    requires
        tidy(g),
        s < base <= g.made,
        known(g, ctx),
        aim(g, next_node),
        flat ==> flat_contents(AstNodeContents::TryBlock(t)),
        home ==> homing_contents(AstNodeContents::TryBlock(t), ctx.sink_node == Some(s)),
        steady ==> steady_contents(AstNodeContents::TryBlock(t)),
        seal ==> next_node != s || quiet_try(t),
        fresh ==> next_node != s || (anchored_block(t.block) && block_yields(t.block)),
        lower_try_body(g, ctx, t, next_node) is Ok,
    ensures
        ({
            let (g2, r) = lower_try_body(g, ctx, t, next_node)->Ok_0;
            &&& step(g, g2, base, flat)
            &&& seal ==> sealing(g, g2, s)
            &&& fresh ==> r->Child_0 != s
            &&& home ==> returning(g, g2, s)
            &&& steady ==> branching(g, g2)
            &&& r is Child
            &&& aim(g2, r->Child_0)
            &&& r->Child_0 >= g.made || r->Child_0 == next_node
        }),
    decreases t, 0nat,
{
    let inner = ContextModel { most_recent_node: Some(next_node), ..ctx };
    assert(known(g, inner));
    lemma_catches(
        g,
        inner,
        t.catches@,
        t.catches@.len() as int,
        next_node,
        ctx.exception_nodes,
        s,
        base,
        flat,
        steady,
        seal,
        home,
    );
    let (g1, table) = lower_catches(
        g,
        inner,
        t.catches@,
        t.catches@.len() as int,
        next_node,
        ctx.exception_nodes,
    )->Ok_0;
    let body_ctx = ContextModel { exception_nodes: table, ..inner };
    lemma_known_after(g, g1, inner);
    assert(known(g1, body_ctx));
    lemma_block(g1, body_ctx, t.block, s);
    let (g2, block) = lower_block(g1, body_ctx, t.block)->Ok_0;
    assert(step(g1, g2, base, flat));
    lemma_steps(g, g1, g2, base, flat);
}

/// Lowering a `try` is a step; its entry is new or the continuation.
pub proof fn lemma_try<'a>(g: GraphModel<'a>, ctx: ContextModel<'a>, t: TryBlock<'a>, s: u32)
    requires
        tidy(g),
        s < g.made,
        known(g, ctx),
        lower_try(g, ctx, t) is Ok,
    ensures
        ({
            let (g2, r) = lower_try(g, ctx, t)->Ok_0;
            &&& step(
                g,
                g2,
                g.made,
                flat_contents(AstNodeContents::TryBlock(t)),
            )
            &&& quiet_contents(AstNodeContents::TryBlock(t)) || ctx.most_recent_node != Some(s) ==> sealing(
                g,
                g2,
                s,
            )
            &&& anchored_contents(AstNodeContents::TryBlock(t)) || ctx.most_recent_node != Some(s)
                ==> entry_of(r) != Some(s)
            &&& homing_contents(AstNodeContents::TryBlock(t), ctx.sink_node == Some(s)) ==> returning(g, g2, s)
            &&& steady_contents(AstNodeContents::TryBlock(t)) ==> branching(g, g2)
            &&& entered(g, g2, entry_of(r), ctx.most_recent_node)
            &&& r is Child
        }),
    decreases t, 1nat,
{
    let flat = flat_contents(AstNodeContents::TryBlock(t));
    let steady = steady_contents(AstNodeContents::TryBlock(t));
    let seal = quiet_contents(AstNodeContents::TryBlock(t)) || ctx.most_recent_node != Some(s);
    let fresh = anchored_contents(AstNodeContents::TryBlock(t)) || ctx.most_recent_node != Some(s);
    let home = homing_contents(AstNodeContents::TryBlock(t), ctx.sink_node == Some(s));
    let most_recent = ctx.most_recent_node->0;
    match t.finally {
        Some(f) => {
            lemma_block(g, ctx, f, s);
            let (g1, block) = lower_block(g, ctx, f)->Ok_0;
            let next_node = match block.start() {
                Some(n) => n,
                None => most_recent,
            };
            lemma_known_after(g, g1, ctx);
            assert(step(g, g1, g.made, flat));
            lemma_try_body(g1, ctx, t, next_node, s, g.made, flat, steady, seal, fresh, home);
            lemma_steps(g, g1, lower_try(g, ctx, t)->Ok_0.0, g.made, flat);
        },
        None => {
            lemma_try_body(g, ctx, t, most_recent, s, g.made, flat, steady, seal, fresh, home);
        },
    }
}

} // verus!
