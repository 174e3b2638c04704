//! What holds of every graph that the lowering gives.

use vstd::prelude::*;
use crate::cfg::cfg_node::{ControlType, Direction, Edge, LabelEdge, Node, NodeType};
use crate::cfg::graph::{edges_from, graph_edges, graph_nodes, MethodGraph};
use crate::cfg::invariants::{
    decisions_branch, extends, is_bracket, lemma_absent_is_isolated, lemma_count_from_none,
    lemma_without_keeps, returns_reach,
};
use crate::cfg::labels::{
    is_placeholder, remove_label, remove_labels, resolve_from, resolve_node, resolve_successors,
    successors, sweep_labels, Walk,
};
use crate::cfg::lowering::{
    base_context, catch_entries, control_node, decision_node, exception_node, first_target,
    lookup, lower_block, lower_catches, lower_condition, lower_function, lower_method,
    lower_return, lower_throw, sink_node, source_node, throw_target, ContextModel, ProcessedNode,
};
use crate::cfg::model::{shows, GraphModel, Lowered};
use crate::cfg::trees::{
    anchored_block, anchored_method, flat_block, flat_method, homing_block, homing_method,
    steady_block, steady_method,
};
use crate::cfg::shape::{
    branching, known, lemma_block, lemma_edge_added, lemma_labels_removed, lemma_labels_resolved,
    lemma_node_added, lemma_steps, lemma_walk_from, returned, returning, sealed, sealing, step,
    tidy,
};
use crate::messages::ast_node::{
    AstNode, CatchBlock, Decision, FunctionBlock, Return, ThrowStatement,
};

verus! {

/// The index of the source in the graph of a method.
pub open spec fn method_source() -> u32 {
    0
}

/// The index of the sink in the graph of a method.
pub open spec fn method_sink() -> u32 {
    1
}

/// Whether there is no label placeholder and no label edge in `g`.
pub open spec fn resolved<'a>(g: GraphModel<'a>) -> bool {
    &&& forall|n: u32| #[trigger] g.has_node(n) ==> !(g.nodes[n].node_type is Label)
    &&& forall|k: int| 0 <= k < g.edges.len() ==> !((#[trigger] g.edges[k]).2 is Label)
}

/// Whether the source and the sink of the method are in `g`, and no edge
/// enters a source.
pub open spec fn framed<'a>(g: GraphModel<'a>) -> bool {
    &&& g.has_node(method_source())
    &&& g.nodes[method_source()].node_type is Source
    &&& g.has_node(method_sink())
    &&& g.nodes[method_sink()].node_type is Sink
    &&& forall|k: int| 0 <= k < g.edges.len() ==> !(g.nodes[(#[trigger] g.edges[k]).1].node_type is Source)
}

/// Whether the source and the sink of the method are the only source and
/// the only sink of `g`.
pub open spec fn single_frame<'a>(g: GraphModel<'a>) -> bool {
    &&& forall|n: u32| #[trigger] g.has_node(n) && g.nodes[n].node_type is Source ==> n == method_source()
    &&& forall|n: u32| #[trigger] g.has_node(n) && g.nodes[n].node_type is Sink ==> n == method_sink()
}

/// Whether no edge of `g` leaves the sink of the method.
pub open spec fn sink_ends<'a>(g: GraphModel<'a>) -> bool {
    forall|k: int| 0 <= k < g.edges.len() ==> (#[trigger] g.edges[k]).0 != method_sink()
}

/// Whether the source and the sink of the method carry the name of the
/// function `f`.
pub open spec fn named_after<'a>(g: GraphModel<'a>, f: FunctionBlock<'a>) -> bool {
    &&& g.nodes[method_source()] == source_node(f.name)
    &&& g.nodes[method_sink()] == sink_node(f.name)
}

/// The graph of a function that is lowered by itself.
pub open spec fn function_graph<'a>(f: FunctionBlock<'a>) -> Lowered<'a, ProcessedNode> {
    lower_function(GraphModel::empty(), base_context(), f)
}

/// What holds of the graph of a function that is lowered by itself,
/// whatever the function holds; what holds besides if it holds no function;
/// what holds besides if no `return` stands in a function inside it; what
/// holds besides if every loop in it goes back to a node of its own; and
/// what holds besides if no `try` that has neither an entry nor a label
/// stands last in it.
pub open spec fn shaped<'a>(f: FunctionBlock<'a>, g: GraphModel<'a>) -> bool {
    &&& resolved(g)
    &&& framed(g)
    &&& named_after(g, f)
    &&& flat_block(f.block) ==> single_frame(g)
    &&& homing_block(f.block, true) ==> returns_reach(g, method_sink())
    &&& steady_block(f.block) ==> decisions_branch(g)
    &&& anchored_block(f.block) ==> sink_ends(g)
}

/// The graph of a function that is lowered by itself is as `shaped` says.
pub proof fn lemma_function_shape<'a>(f: FunctionBlock<'a>)
    requires
        function_graph(f) is Ok,
    ensures
        tidy(function_graph(f)->Ok_0.0),
        shaped(f, function_graph(f)->Ok_0.0),
{
    let flat = flat_block(f.block);
    let sink = method_sink();
    let g0 = GraphModel::empty();
    assert(tidy(g0));
    lemma_node_added(g0, source_node(f.name), sink);
    let (g1, source) = g0.add_node(source_node(f.name));
    lemma_node_added(g1, sink_node(f.name), sink);
    let (g2, made_sink) = g1.add_node(sink_node(f.name));
    assert(source == 0 && made_sink == 1);
    assert(sealed(g2, sink));
    assert(decisions_branch(g2));
    assert(returned(g2, sink));
    let ctx = ContextModel { sink_node: Some(made_sink), most_recent_node: Some(made_sink), ..base_context() };
    assert(known(g2, ctx));
    lemma_block(g2, ctx, f.block, sink);
    let (g3, block) = lower_block(g2, ctx, f.block)->Ok_0;
    let g4 = match block.start() {
        Some(start) => {
            lemma_edge_added(g3, source, start, Edge::Statement, sink);
            g3.add_edge(source, start, Edge::Statement)
        },
        None => g3,
    };
    assert(step(g3, g4, g2.made, flat));
    assert(branching(g3, g4) && returning(g3, g4, sink));
    assert(anchored_block(f.block) ==> sealing(g2, g3, sink) && sealing(g3, g4, sink));
    lemma_steps(g2, g3, g4, g2.made, flat);
    lemma_labels_resolved(g4, source, sink);
    let g = function_graph(f)->Ok_0.0;
    assert(g == crate::cfg::labels::resolve_labels(g4, source)->Ok_0.0);
    assert(step(g4, g, g2.made, flat));
    lemma_steps(g2, g4, g, g2.made, flat);
    assert(g2.has_node(0) && g2.has_node(1));
    assert(g.has_node(0) && g.has_node(1));
    assert forall|n: u32| #[trigger] g.has_node(n) implies !(g.nodes[n].node_type is Label) by {
        assert(!is_placeholder(g, n));
    }
    assert forall|k: int| 0 <= k < g.edges.len() implies !((#[trigger] g.edges[k]).2 is Label) by {
        assert(g.has_node(g.edges[k].0));
    }
    if flat {
        assert forall|n: u32| #[trigger] g.has_node(n) && (g.nodes[n].node_type is Source
            || g.nodes[n].node_type is Sink) implies n == 0 || n == 1 by {
            assert(is_bracket(g, n));
            assert(is_bracket(g2, n));
        }
    }
}

/// What holds of the graph of a method, as `shaped` says of the function
/// that the method is.
pub proof fn lemma_method_shape<'a>(method: AstNode<'a>)
    requires
        lower_method(method) is Ok,
    ensures
        ({
            let g = lower_method(method)->Ok_0;
            &&& tidy(g)
            &&& resolved(g)
            &&& framed(g)
            &&& named_after(g, method.contents->FunctionBlock_0)
            &&& flat_method(method) ==> single_frame(g)
            &&& homing_method(method) ==> returns_reach(g, method_sink())
            &&& steady_method(method) ==> decisions_branch(g)
            &&& anchored_method(method) ==> sink_ends(g)
        }),
{
    lemma_function_shape(method.contents->FunctionBlock_0);
}

/// In the graph of a method there is no label placeholder and no label
/// edge.
pub proof fn law_no_placeholder_is_left<'a>(method: AstNode<'a>)
    requires
        lower_method(method) is Ok,
    ensures
        resolved(lower_method(method)->Ok_0),
{
    lemma_method_shape(method);
}

/// In the graph of a method, the source and the sink of the method are
/// there and carry the method's name, and no edge enters a source.
pub proof fn law_nothing_enters_a_source<'a>(method: AstNode<'a>)
    requires
        lower_method(method) is Ok,
    ensures
        framed(lower_method(method)->Ok_0),
        named_after(lower_method(method)->Ok_0, method.contents->FunctionBlock_0),
{
    lemma_method_shape(method);
}

/// The graph of a method that holds no function has exactly one source and
/// exactly one sink.
pub proof fn law_one_source_and_one_sink<'a>(method: AstNode<'a>)
    requires
        flat_method(method),
        lower_method(method) is Ok,
    ensures
        framed(lower_method(method)->Ok_0),
        single_frame(lower_method(method)->Ok_0),
{
    lemma_method_shape(method);
}

/// In the graph of a method in which no `return` stands in a function
/// inside the method, every `return` has a statement edge to the sink of the
/// method.
pub proof fn law_returns_reach_the_sink<'a>(method: AstNode<'a>)
    requires
        homing_method(method),
        lower_method(method) is Ok,
    ensures
        returns_reach(lower_method(method)->Ok_0, method_sink()),
{
    lemma_method_shape(method);
}

/// In the graph of a method in which every loop goes back to a node of its
/// own, every decision has exactly one outgoing `true` edge and exactly one
/// outgoing `false` edge.
pub proof fn law_decisions_have_two_branches<'a>(method: AstNode<'a>)
    requires
        steady_method(method),
        lower_method(method) is Ok,
    ensures
        decisions_branch(lower_method(method)->Ok_0),
{
    lemma_method_shape(method);
}

/// In the graph of a method in which no `try` that has neither an entry nor
/// a label stands last, no edge leaves the sink of the method.
pub proof fn law_nothing_leaves_the_sink<'a>(method: AstNode<'a>)
    requires
        anchored_method(method),
        lower_method(method) is Ok,
    ensures
        sink_ends(lower_method(method)->Ok_0),
{
    lemma_method_shape(method);
}

/// Whether `g2` has the edges of `g` and then only edges that leave nodes
/// which are not in `g`.
pub open spec fn grows_from_new<'a>(g: GraphModel<'a>, g2: GraphModel<'a>) -> bool {
    &&& g.edges.len() <= g2.edges.len()
    &&& forall|k: int| 0 <= k < g.edges.len() ==> g2.edges[k] == g.edges[k]
    &&& forall|k: int| g.edges.len() <= k < g2.edges.len() ==> !g.has_node((#[trigger] g2.edges[k]).0)
}

/// The edges that leave `n` are among the first `m` edges, if none of the
/// others leaves `n`.
pub proof fn lemma_edges_from_prefix<'a>(edges: Seq<(u32, u32, Edge<'a>)>, m: int, n: u32)
    requires
        0 <= m <= edges.len(),
        forall|k: int| m <= k < edges.len() ==> (#[trigger] edges[k]).0 != n,
    ensures
        edges_from(edges, n) == edges_from(edges.subrange(0, m), n),
    decreases edges.len() - m,
{
    if m < edges.len() {
        assert(edges[edges.len() - 1].0 != n);
        let shorter = edges.drop_last();
        assert forall|k: int| m <= k < shorter.len() implies (#[trigger] shorter[k]).0 != n by {
            assert(shorter[k] == edges[k]);
        }
        lemma_edges_from_prefix(shorter, m, n);
        assert(shorter.subrange(0, m) =~= edges.subrange(0, m));
    } else {
        assert(edges.subrange(0, m) =~= edges);
    }
}

/// The edges that leave a node of `g` are the same in a graph that grows
/// from new nodes.
pub proof fn lemma_outgoing_stays<'a>(g: GraphModel<'a>, g2: GraphModel<'a>, n: u32)
    requires
        grows_from_new(g, g2),
        g.has_node(n),
        g2.has_node(n),
    ensures
        g2.outgoing(n) == g.outgoing(n),
{
    lemma_edges_from_prefix(g2.edges, g.edges.len() as int, n);
    assert(g2.edges.subrange(0, g.edges.len() as int) =~= g.edges);
}

/// What lowering a condition gives: new decisions, with no edge of the graph
/// changed; and from the last decision the `false` edge leads to the `false`
/// target and the `true` edge to the `true` target.
pub proof fn lemma_condition_shape<'a>(g: GraphModel<'a>, c: Decision<'a>, t: u32, f: u32)
    requires
        g.wf(),
        g.has_node(t),
        g.has_node(f),
        lower_condition(g, c, t, f) is Ok,
    ensures
        ({
            let (g2, ds) = lower_condition(g, c, t, f)->Ok_0;
            &&& g2.wf()
            &&& extends(g, g2)
            &&& grows_from_new(g, g2)
            &&& forall|k: int| 0 <= k < ds.len() ==> g2.has_node(#[trigger] ds[k]) && !g.has_node(ds[k])
            &&& ds.len() > 0 ==> g2.outgoing(ds.last()) =~= seq![
                (f, Edge::Decision(Direction::False)),
                (t, Edge::Decision(Direction::True)),
            ]
        }),
    decreases c,
{
    match c {
        Decision::Unit(expr) => {
            let w = decision_node(expr);
            let (g1, d) = g.add_node(w);
            let et = (d, t, Edge::Decision(Direction::True));
            let ef = (d, f, Edge::Decision(Direction::False));
            g.lemma_add_node_wf(w);
            lemma_absent_is_isolated(g, d);
            let g2 = g1.add_edge(d, t, Edge::Decision(Direction::True));
            g1.lemma_add_edge_wf(d, t, Edge::Decision(Direction::True));
            let g3 = g2.add_edge(d, f, Edge::Decision(Direction::False));
            g2.lemma_add_edge_wf(d, f, Edge::Decision(Direction::False));
            lemma_count_from_none(g.edges, d, Edge::Statement);
            assert(g3.edges.drop_last() =~= g.edges.push(et));
            assert(g.edges.push(et).drop_last() =~= g.edges);
            assert(edges_from(g.edges.push(et), d) =~= seq![(t, Edge::Decision(Direction::True))]);
            assert(lower_condition(g, c, t, f)->Ok_0 == (g3, seq![d]));
        },
        Decision::And(l, r) => {
            lemma_condition_shape(g, *r, t, f);
            let (g1, right) = lower_condition(g, *r, t, f)->Ok_0;
            assert(g1.has_node(right[0]));
            lemma_condition_shape(g1, *l, right[0], f);
            let (g2, left) = lower_condition(g1, *l, right[0], f)->Ok_0;
            lemma_shape_joins(g, g1, g2, left, right);
        },
        Decision::Or(l, r) => {
            lemma_condition_shape(g, *r, t, f);
            let (g1, right) = lower_condition(g, *r, t, f)->Ok_0;
            assert(g1.has_node(right[0]));
            lemma_condition_shape(g1, *l, t, right[0]);
            let (g2, left) = lower_condition(g1, *l, t, right[0])->Ok_0;
            lemma_shape_joins(g, g1, g2, left, right);
        },
        Decision::Empty => {},
    }
}

/// Two conditions lowered one after the other: the decisions of both are
/// new, and the edges that leave the last decision of the first stay.
pub proof fn lemma_shape_joins<'a>(
    g: GraphModel<'a>,
    g1: GraphModel<'a>,
    g2: GraphModel<'a>,
    left: Seq<u32>,
    right: Seq<u32>,
)
    requires
        extends(g, g1),
        extends(g1, g2),
        grows_from_new(g, g1),
        grows_from_new(g1, g2),
        right.len() > 0,
        forall|k: int| 0 <= k < right.len() ==> g1.has_node(#[trigger] right[k]) && !g.has_node(right[k]),
        forall|k: int| 0 <= k < left.len() ==> g2.has_node(#[trigger] left[k]) && !g1.has_node(left[k]),
    ensures
        extends(g, g2),
        grows_from_new(g, g2),
        forall|k: int|
            0 <= k < (left + right).len() ==> g2.has_node(#[trigger] (left + right)[k]) && !g.has_node(
                (left + right)[k],
            ),
        (left + right).last() == right.last(),
        g2.outgoing(right.last()) == g1.outgoing(right.last()),
{
    assert forall|n: u32| #[trigger] g.has_node(n) implies g2.has_node(n) && g2.nodes[n] == g.nodes[n] by {
        assert(g1.has_node(n));
    }
    assert forall|k: int| 0 <= k < g.edges.len() implies g2.edges[k] == g.edges[k] by {
        assert(g1.edges[k] == g.edges[k]);
    }
    assert forall|k: int| g.edges.len() <= k < g2.edges.len() implies !g.has_node(
        (#[trigger] g2.edges[k]).0,
    ) by {
        if k < g1.edges.len() {
            assert(g2.edges[k] == g1.edges[k]);
        } else {
            if g.has_node(g2.edges[k].0) {
                assert(g1.has_node(g2.edges[k].0));
            }
        }
    }
    let ds = left + right;
    assert forall|k: int| 0 <= k < ds.len() implies g2.has_node(#[trigger] ds[k]) && !g.has_node(ds[k]) by {
        if k < left.len() {
            assert(ds[k] == left[k]);
            if g.has_node(left[k]) {
                assert(g1.has_node(left[k]));
            }
        } else {
            assert(ds[k] == right[k - left.len()]);
            assert(g1.has_node(right[k - left.len()]));
        }
    }
    assert(g1.has_node(right[right.len() - 1]));
    lemma_outgoing_stays(g1, g2, right.last());
}

/// A conjunction skips its right side when its left side does not hold: from
/// the last decision of the left side the `false` edge leads to the `false`
/// target of the conjunction, and the `true` edge to the first decision of
/// the right side.
pub proof fn law_and_short_circuits<'a>(g: GraphModel<'a>, condition: Decision<'a>, t: u32, f: u32)
    requires
        g.wf(),
        g.has_node(t),
        g.has_node(f),
        condition is And,
        lower_condition(g, condition, t, f) is Ok,
    ensures
        ({
            let (g1, right) = lower_condition(g, *condition->And_1, t, f)->Ok_0;
            let (g2, left) = lower_condition(g1, *condition->And_0, right[0], f)->Ok_0;
            &&& lower_condition(g, condition, t, f)->Ok_0 == (g2, left + right)
            &&& right.len() > 0
            &&& left.len() > 0 ==> g2.outgoing(left.last()) =~= seq![
                (f, Edge::Decision(Direction::False)),
                (right[0], Edge::Decision(Direction::True)),
            ]
        }),
{
    lemma_condition_shape(g, *condition->And_1, t, f);
    let (g1, right) = lower_condition(g, *condition->And_1, t, f)->Ok_0;
    assert(g1.has_node(right[0]));
    lemma_condition_shape(g1, *condition->And_0, right[0], f);
}

/// A disjunction skips its right side when its left side holds: from the
/// last decision of the left side the `true` edge leads to the `true` target
/// of the disjunction, and the `false` edge to the first decision of the
/// right side.
pub proof fn law_or_short_circuits<'a>(g: GraphModel<'a>, condition: Decision<'a>, t: u32, f: u32)
    requires
        g.wf(),
        g.has_node(t),
        g.has_node(f),
        condition is Or,
        lower_condition(g, condition, t, f) is Ok,
    ensures
        ({
            let (g1, right) = lower_condition(g, *condition->Or_1, t, f)->Ok_0;
            let (g2, left) = lower_condition(g1, *condition->Or_0, t, right[0])->Ok_0;
            &&& lower_condition(g, condition, t, f)->Ok_0 == (g2, left + right)
            &&& right.len() > 0
            &&& left.len() > 0 ==> g2.outgoing(left.last()) =~= seq![
                (right[0], Edge::Decision(Direction::False)),
                (t, Edge::Decision(Direction::True)),
            ]
        }),
{
    lemma_condition_shape(g, *condition->Or_1, t, f);
    let (g1, right) = lower_condition(g, *condition->Or_1, t, f)->Ok_0;
    assert(g1.has_node(right[0]));
    lemma_condition_shape(g1, *condition->Or_0, t, right[0]);
}

/// A `return` makes one node, and with a function's exit in the context
/// exactly one edge leaves it: a statement edge to the exit.
pub proof fn law_return_is_linked<'a>(g: GraphModel<'a>, ctx: ContextModel<'a>, ret: Return<'a>)
    requires
        g.wf(),
        lower_return(g, ctx, ret) is Ok,
    ensures
        ({
            let (g2, r) = lower_return(g, ctx, ret)->Ok_0;
            &&& r is Child
            &&& !g.has_node(r->Child_0)
            &&& g2.nodes == g.nodes.insert(r->Child_0, control_node(ret.expression, ControlType::Return))
            &&& ctx.sink_node is Some ==> g2.outgoing(r->Child_0) =~= seq![(ctx.sink_node->0, Edge::Statement)]
            &&& ctx.sink_node is None ==> g2.outgoing(r->Child_0) =~= Seq::empty()
        }),
{
    let w = control_node(ret.expression, ControlType::Return);
    let (g1, n) = g.add_node(w);
    g.lemma_add_node_wf(w);
    lemma_absent_is_isolated(g, n);
    lemma_count_from_none(g.edges, n, Edge::Statement);
    match ctx.sink_node {
        Some(sink) => {
            let g2 = g1.add_edge(n, sink, Edge::Statement);
            assert(g2.edges.drop_last() =~= g.edges);
        },
        None => {},
    }
}

/// Whether none of `exceptions` from position `i` up to `j` has a handler.
pub open spec fn none_caught<'a>(ctx: ContextModel<'a>, exceptions: Seq<&'a str>, i: int, j: int) -> bool {
    forall|k: int| i <= k < j ==> lookup(ctx.exception_nodes, (#[trigger] exceptions[k])@) is None
}

/// Where a `throw` goes: to the handler of the first of its exceptions that
/// has one, with that exception; with no handler to the function's exit,
/// with the first of its exceptions.
pub proof fn lemma_throw_target_is_first<'a>(ctx: ContextModel<'a>, exceptions: Seq<&'a str>, i: int)
    requires
        0 <= i <= exceptions.len(),
    ensures
        forall|j: int|
            i <= j < exceptions.len() && none_caught(ctx, exceptions, i, j) && lookup(
                ctx.exception_nodes,
                exceptions[j]@,
            ) is Some ==> #[trigger] throw_target(ctx, exceptions, i) == Some(
                (lookup(ctx.exception_nodes, exceptions[j]@)->0, #[trigger] exceptions[j]),
            ),
        none_caught(ctx, exceptions, i, exceptions.len() as int) && exceptions.len() > 0
            && ctx.sink_node is Some ==> throw_target(ctx, exceptions, i) == Some(
            (ctx.sink_node->0, exceptions[0]),
        ),
    decreases exceptions.len() - i,
{
    if i < exceptions.len() {
        lemma_throw_target_is_first(ctx, exceptions, i + 1);
        assert forall|j: int|
            i <= j < exceptions.len() && none_caught(ctx, exceptions, i, j) && lookup(
                ctx.exception_nodes,
                exceptions[j]@,
            ) is Some implies #[trigger] throw_target(ctx, exceptions, i) == Some(
            (lookup(ctx.exception_nodes, exceptions[j]@)->0, #[trigger] exceptions[j]),
        ) by {
            if j > i {
                assert(lookup(ctx.exception_nodes, exceptions[i]@) is None);
                assert(none_caught(ctx, exceptions, i + 1, j));
            }
        }
        if none_caught(ctx, exceptions, i, exceptions.len() as int) {
            assert(lookup(ctx.exception_nodes, exceptions[i]@) is None);
            assert(none_caught(ctx, exceptions, i + 1, exceptions.len() as int));
        }
    }
}

/// A `throw` makes one node, and exactly one edge leaves it: an exception
/// edge. If one of the exceptions of the `throw` has a handler, the edge
/// leads to the handler of the first that has one and carries that
/// exception; if none has, the edge leads to the function's exit and carries
/// the first exception.
pub proof fn law_throw_is_routed<'a>(g: GraphModel<'a>, ctx: ContextModel<'a>, throw: ThrowStatement<'a>)
    requires
        g.wf(),
        lower_throw(g, ctx, throw) is Ok,
    ensures
        ({
            let (g2, r) = lower_throw(g, ctx, throw)->Ok_0;
            let exceptions = throw.exception@;
            &&& r is Child
            &&& !g.has_node(r->Child_0)
            &&& g2.nodes == g.nodes.insert(r->Child_0, exception_node(throw.statement.code))
            &&& g2.outgoing(r->Child_0).len() == 1
            &&& g2.outgoing(r->Child_0)[0].1 is Exception
            &&& forall|j: int|
                0 <= j < exceptions.len() && none_caught(ctx, exceptions, 0, j) && lookup(
                    ctx.exception_nodes,
                    (#[trigger] exceptions[j])@,
                ) is Some ==> g2.outgoing(r->Child_0)[0] == (
                    lookup(ctx.exception_nodes, exceptions[j]@)->0,
                    (Edge::Exception { exception: exceptions[j] }),
                )
            &&& none_caught(ctx, exceptions, 0, exceptions.len() as int) ==> ctx.sink_node is Some
                && g2.outgoing(r->Child_0)[0] == (
                ctx.sink_node->0,
                (Edge::Exception { exception: exceptions[0] }),
            )
        }),
{
    let exceptions = throw.exception@;
    let (target, exception) = throw_target(ctx, exceptions, 0)->0;
    let w = exception_node(throw.statement.code);
    let (g1, n) = g.add_node(w);
    g.lemma_add_node_wf(w);
    lemma_absent_is_isolated(g, n);
    let e = (n, target, Edge::Exception { exception });
    let g2 = g1.add_edge(n, target, Edge::Exception { exception });
    assert(lower_throw(g, ctx, throw)->Ok_0 == (g2, ProcessedNode::Child(n)));
    lemma_count_from_none(g.edges, n, Edge::Statement);
    assert(g2.edges.drop_last() =~= g.edges);
    assert(g2.outgoing(n) =~= seq![(target, Edge::Exception { exception })]);
    lemma_throw_target_is_first(ctx, exceptions, 0);
    if none_caught(ctx, exceptions, 0, exceptions.len() as int) && ctx.sink_node is None {
        lemma_no_handler(ctx, exceptions, 0);
    }
}

/// With no handler for any exception and no exit, a `throw` goes nowhere.
pub proof fn lemma_no_handler<'a>(ctx: ContextModel<'a>, exceptions: Seq<&'a str>, i: int)
    requires
        0 <= i <= exceptions.len(),
        none_caught(ctx, exceptions, i, exceptions.len() as int),
        ctx.sink_node is None,
    ensures
        throw_target(ctx, exceptions, i) is None,
    decreases exceptions.len() - i,
{
    if i < exceptions.len() {
        assert(lookup(ctx.exception_nodes, exceptions[i]@) is None);
        assert(none_caught(ctx, exceptions, i + 1, exceptions.len() as int));
        lemma_no_handler(ctx, exceptions, i + 1);
    }
}

/// The exception table names a handler's node for every exception that the
/// handler catches, and is as before for every other exception.
pub proof fn law_handler_is_installed<'a>(
    table: Seq<(&'a str, u32)>,
    exceptions: Seq<&'a str>,
    i: int,
    handler: u32,
    key: Seq<char>,
)
    requires
        0 <= i <= exceptions.len(),
    ensures
        lookup(catch_entries(table, exceptions, i, handler), key) == if exists|k: int|
            i <= k < exceptions.len() && (#[trigger] exceptions[k])@ == key {
            Some(handler)
        } else {
            lookup(table, key)
        },
    decreases exceptions.len() - i,
{
    if i < exceptions.len() {
        let next = table.push((exceptions[i], handler));
        law_handler_is_installed(next, exceptions, i + 1, handler, key);
        assert(next.drop_last() =~= table);
        assert(next.last() == (exceptions[i], handler));
        if exists|k: int| i <= k < exceptions.len() && (#[trigger] exceptions[k])@ == key {
            let k = choose|k: int| i <= k < exceptions.len() && (#[trigger] exceptions[k])@ == key;
            if !(exists|k2: int| i + 1 <= k2 < exceptions.len() && (#[trigger] exceptions[k2])@ == key) {
                assert(k == i);
            }
        } else {
            assert(exceptions[i]@ != key);
        }
    }
}

/// Whether one of the first `i` of `catches` catches the exception `key`.
pub open spec fn caught_by<'a>(catches: Seq<CatchBlock<'a>>, i: int, key: Seq<char>) -> bool {
    exists|k: int, j: int|
        0 <= k < i && k < catches.len() && 0 <= j < catches[k].exception_types@.len()
            && (#[trigger] catches[k].exception_types@[j])@ == key
}

/// A `try` leaves the handlers around it in force for every exception that
/// none of its own handlers catches: for such an exception the table that
/// its body is lowered with names what the table around the `try` names.
pub proof fn law_outer_handlers_stay<'a>(
    g: GraphModel<'a>,
    ctx: ContextModel<'a>,
    catches: Seq<CatchBlock<'a>>,
    i: int,
    next_node: u32,
    table: Seq<(&'a str, u32)>,
    key: Seq<char>,
)
    requires
        0 <= i <= catches.len(),
        lower_catches(g, ctx, catches, i, next_node, table) is Ok,
        !caught_by(catches, i, key),
    ensures
        lookup(lower_catches(g, ctx, catches, i, next_node, table)->Ok_0.1, key) == lookup(table, key),
    decreases i,
{
    if i > 0 {
        let catch = catches[i - 1];
        let (g1, block) = lower_block(g, ctx, catch.block)->Ok_0;
        let handler = match block.start() {
            Some(n) => n,
            None => next_node,
        };
        law_handler_is_installed(table, catch.exception_types@, 0, handler, key);
        assert(!(exists|j: int|
            0 <= j < catch.exception_types@.len() && (#[trigger] catch.exception_types@[j])@ == key)) by {
            if exists|j: int| 0 <= j < catch.exception_types@.len() && (#[trigger] catch.exception_types@[j])@ == key {
                let j = choose|j: int|
                    0 <= j < catch.exception_types@.len() && (#[trigger] catch.exception_types@[j])@ == key;
                assert(0 <= i - 1 < i && catches[i - 1].exception_types@[j]@ == key);
            }
        }
        let next_table = catch_entries(table, catch.exception_types@, 0, handler);
        assert(!caught_by(catches, i - 1, key)) by {
            if caught_by(catches, i - 1, key) {
                let (k, j) = choose|k: int, j: int|
                    0 <= k < i - 1 && k < catches.len() && 0 <= j < catches[k].exception_types@.len()
                        && (#[trigger] catches[k].exception_types@[j])@ == key;
                assert(0 <= k < i && catches[k].exception_types@[j]@ == key);
            }
        }
        law_outer_handlers_stay(g1, ctx, catches, i - 1, next_node, next_table, key);
    }
}

/// An index is used once: a new node gets the number of the nodes that were
/// made before it as its index, and that number grows with every node that
/// is made and does not fall when a node or an edge is added or a node is
/// removed.
pub proof fn law_indices_are_used_once<'a>(g: GraphModel<'a>, w: Node<'a>, a: u32, b: u32, e: Edge<'a>)
    requires
        g.wf(),
        g.made < u32::MAX,
    ensures
        g.add_node(w).1 == g.made,
        !g.has_node(g.add_node(w).1),
        g.add_node(w).0.made == g.made + 1,
        g.add_edge(a, b, e).made == g.made,
        g.remove_node(a).made == g.made,
{
    g.lemma_add_node_wf(w);
}

/// Lowering is a function of the syntax tree: two containers that each show
/// the graph of one method hold the same nodes at the same indices and the
/// same edges in the same order.
pub proof fn law_lowering_is_deterministic<'a>(
    method: AstNode<'a>,
    first: MethodGraph<'a>,
    second: MethodGraph<'a>,
)
    requires
        lower_method(method) is Ok,
        shows(first, lower_method(method)->Ok_0),
        shows(second, lower_method(method)->Ok_0),
    ensures
        graph_nodes(first) == graph_nodes(second),
        graph_edges(first) == graph_edges(second),
{
}

/// A `break` or `continue` that names a label in scope gets a statement edge
/// to where the label's placeholder says that such a jump goes.
pub proof fn law_labelled_jump_is_linked<'a>(
    g: GraphModel<'a>,
    current: u32,
    labels: Seq<(&'a str, u32)>,
    kind: LabelEdge,
)
    requires
        g.nodes[current].label is Some,
        lookup(labels, g.nodes[current].label->0@) is Some,
        kind == LabelEdge::Break && g.nodes[current].node_type == NodeType::ControlNode(ControlType::Break)
            || kind == LabelEdge::Continue && g.nodes[current].node_type == NodeType::ControlNode(
            ControlType::Continue,
        ),
        first_target(
            g.outgoing(lookup(labels, g.nodes[current].label->0@)->0),
            Edge::Label(kind),
            0,
        ) is Some,
        resolve_node(g, current, labels) is Ok,
    ensures
        resolve_node(g, current, labels)->Ok_0.0.edges == g.edges.push(
            (
                current,
                first_target(
                    g.outgoing(lookup(labels, g.nodes[current].label->0@)->0),
                    Edge::Label(kind),
                    0,
                )->0,
                Edge::Statement,
            ),
        ),
{
}

/// Whether `g2` has the edges of `g`, in their order, and perhaps more after
/// them.
pub open spec fn keeps_edges<'a>(g: GraphModel<'a>, g2: GraphModel<'a>) -> bool {
    &&& g.edges.len() <= g2.edges.len()
    &&& forall|k: int| 0 <= k < g.edges.len() ==> g2.edges[k] == g.edges[k]
}

/// The walk that resolves the labels removes no edge.
pub proof fn law_walk_keeps_edges<'a>(
    g: GraphModel<'a>,
    universe: Set<u32>,
    current: u32,
    labels: Seq<(&'a str, u32)>,
    walk: Walk,
)
    requires
        universe.finite(),
        resolve_from(g, universe, current, labels, walk) is Ok,
    ensures
        keeps_edges(g, resolve_from(g, universe, current, labels, walk)->Ok_0.0),
    decreases universe.difference(walk.visited).len(), 0nat,
{
    if !walk.visited.contains(current) {
        let (g1, (scope, found)) = resolve_node(g, current, labels)->Ok_0;
        let next = Walk { visited: walk.visited.insert(current), found: walk.found + found };
        let before = universe.difference(walk.visited);
        let after = universe.difference(walk.visited.insert(current));
        assert(after =~= before.remove(current));
        assert(before.contains(current));
        assert(keeps_edges(g, g1)) by {
            if g1 != g {
                assert(g1.edges.drop_last() =~= g.edges);
            }
        }
        lemma_successors_keep_edges(g1, universe, successors(g1, current), 0, scope, next);
        let g2 = resolve_from(g, universe, current, labels, walk)->Ok_0.0;
        assert forall|k: int| 0 <= k < g.edges.len() implies g2.edges[k] == g.edges[k] by {
            assert(g1.edges[k] == g.edges[k]);
        }
    }
}

/// The walk from each of several nodes removes no edge.
pub proof fn lemma_successors_keep_edges<'a>(
    g: GraphModel<'a>,
    universe: Set<u32>,
    targets: Seq<u32>,
    i: int,
    labels: Seq<(&'a str, u32)>,
    walk: Walk,
)
    requires
        universe.finite(),
        0 <= i,
        resolve_successors(g, universe, targets, i, labels, walk) is Ok,
    ensures
        keeps_edges(g, resolve_successors(g, universe, targets, i, labels, walk)->Ok_0.0),
    decreases universe.difference(walk.visited).len(), 1 + targets.len() - i,
{
    if i < targets.len() {
        law_walk_keeps_edges(g, universe, targets[i], labels, walk);
        let (g1, step) = resolve_from(g, universe, targets[i], labels, walk)->Ok_0;
        let next = Walk { visited: walk.visited.union(step.visited), found: step.found };
        let before = universe.difference(walk.visited);
        let later = universe.difference(next.visited);
        assert(later.subset_of(before));
        vstd::set_lib::lemma_len_subset(later, before);
        lemma_successors_keep_edges(g1, universe, targets, i + 1, labels, next);
        let g2 = resolve_successors(g, universe, targets, i, labels, walk)->Ok_0.0;
        assert forall|k: int| 0 <= k < g.edges.len() implies g2.edges[k] == g.edges[k] by {
            assert(g1.edges[k] == g.edges[k]);
        }
    }
}

/// Copying edges removes no edge.
pub proof fn lemma_redirect_keeps_edges<'a>(g: GraphModel<'a>, sources: Seq<(u32, Edge<'a>)>, i: int, t: u32)
    requires
        0 <= i,
        g.redirect_from(sources, i, t) is Ok,
    ensures
        keeps_edges(g, g.redirect_from(sources, i, t)->Ok_0.0),
    decreases sources.len() - i,
{
    if i < sources.len() {
        let g1 = g.add_edge(sources[i].0, t, sources[i].1);
        lemma_redirect_keeps_edges(g1, sources, i + 1, t);
        let g2 = g.redirect_from(sources, i, t)->Ok_0.0;
        assert forall|k: int| 0 <= k < g.edges.len() implies g2.edges[k] == g.edges[k] by {
            assert(g1.edges[k] == g.edges[k]);
        }
    }
}

/// An edge between nodes other than `p` is still there when the label
/// placeholder `p` is taken out.
pub proof fn law_removal_keeps_edge<'a>(g: GraphModel<'a>, p: u32, e: (u32, u32, Edge<'a>))
    requires
        remove_label(g, p) is Ok,
        g.edges.contains(e),
        p != e.0,
        p != e.1,
    ensures
        remove_label(g, p)->Ok_0.0.edges.contains(e),
{
    let target = first_target(g.outgoing(p), Edge::Label(LabelEdge::Next), 0);
    let g1 = if g.incoming(p).len() > 0 {
        lemma_redirect_keeps_edges(g, g.incoming(p), 0, target->0);
        g.redirect(p, target->0)->Ok_0.0
    } else {
        g
    };
    let k = choose|k: int| 0 <= k < g.edges.len() && g.edges[k] == e;
    assert(g1.edges[k] == e);
    if g1.has_node(p) {
        lemma_without_keeps(g1.edges, p, e);
    }
}

/// An edge between two nodes that are none of the label placeholders
/// `found` is still there when those are taken out.
pub proof fn law_removal_keeps_edges<'a>(
    g: GraphModel<'a>,
    found: Seq<u32>,
    i: int,
    e: (u32, u32, Edge<'a>),
)
    requires
        0 <= i,
        remove_labels(g, found, i) is Ok,
        g.edges.contains(e),
        forall|k: int| i <= k < found.len() ==> #[trigger] found[k] != e.0 && found[k] != e.1,
    ensures
        remove_labels(g, found, i)->Ok_0.0.edges.contains(e),
    decreases found.len() - i,
{
    if i < found.len() {
        assert(found[i] != e.0 && found[i] != e.1);
        law_removal_keeps_edge(g, found[i], e);
        law_removal_keeps_edges(remove_label(g, found[i])->Ok_0.0, found, i + 1, e);
    }
}

/// An edge between two nodes that are no label placeholders is still there
/// when every placeholder in a range of indices is taken out.
pub proof fn law_sweep_keeps_edges<'a>(g: GraphModel<'a>, i: u32, end: u32, e: (u32, u32, Edge<'a>))
    requires
        sweep_labels(g, i, end) is Ok,
        g.edges.contains(e),
        !is_placeholder(g, e.0),
        !is_placeholder(g, e.1),
    ensures
        sweep_labels(g, i, end)->Ok_0.0.edges.contains(e),
    decreases end - i,
{
    if i < end {
        if is_placeholder(g, i) {
            law_removal_keeps_edge(g, i, e);
            let g1 = remove_label(g, i)->Ok_0.0;
            if g.incoming(i).len() > 0 {
                crate::cfg::shape::lemma_redirect_made(
                    g,
                    g.incoming(i),
                    0,
                    first_target(g.outgoing(i), Edge::Label(LabelEdge::Next), 0)->0,
                );
            }
            law_sweep_keeps_edges(g1, (i + 1) as u32, end, e);
        } else {
            law_sweep_keeps_edges(g, (i + 1) as u32, end, e);
        }
    }
}

/// An edge between two nodes that are no label placeholders is still there
/// after the pass that resolves the labels, whether the pass found it in the
/// graph or added it on its walk.
pub proof fn law_pass_keeps_edges<'a>(g: GraphModel<'a>, start: u32, e: (u32, u32, Edge<'a>))
    requires
        tidy(g),
        crate::cfg::labels::resolve_labels(g, start) is Ok,
        resolve_from(
            g,
            g.nodes.dom(),
            start,
            Seq::empty(),
            (Walk { visited: Set::empty(), found: Seq::empty() }),
        )->Ok_0.0.edges.contains(e),
        !is_placeholder(g, e.0),
        !is_placeholder(g, e.1),
    ensures
        crate::cfg::labels::resolve_labels(g, start)->Ok_0.0.edges.contains(e),
{
    let begin = Walk { visited: Set::empty(), found: Seq::empty() };
    lemma_walk_from(g, g.nodes.dom(), start, Seq::empty(), begin, method_sink());
    let (g1, walk) = resolve_from(g, g.nodes.dom(), start, Seq::empty(), begin)->Ok_0;
    assert forall|k: int| 0 <= k < walk.found.len() implies #[trigger] walk.found[k] != e.0 && walk.found[k]
        != e.1 by {
        assert(is_placeholder(g, walk.found[k]));
    }
    law_removal_keeps_edges(g1, walk.found, 0, e);
    lemma_labels_removed(g1, walk.found, 0, method_sink());
    let g2 = remove_labels(g1, walk.found, 0)->Ok_0.0;
    assert(!is_placeholder(g2, e.0) && !is_placeholder(g2, e.1)) by {
        if g2.has_node(e.0) {
            assert(g1.has_node(e.0));
        }
        if g2.has_node(e.1) {
            assert(g1.has_node(e.1));
        }
    }
    law_sweep_keeps_edges(g2, start, g2.made as u32, e);
}

} // verus!
