//! What lowering each construct of the syntax tree does to the graph.
//!
//! Each function here takes the graph before a step and gives the graph after
//! it together with what the step returns, or the failure that ends the
//! lowering. The builder's functions are proved to do exactly this.

use vstd::prelude::*;
use crate::cfg::blocks::ProcessedBlock;
use crate::cfg::cfg_node::{ControlType, Direction, Edge, LabelEdge, Node, NodeType};
use crate::cfg::errors::{LabelProcessingErrorView, MethodProcessingErrorView};
use crate::cfg::model::{GraphModel, Lowered};
use crate::messages::ast_node::{
    AstNode, AstNodeContents, Break, Continue, Decision, DecisionBlock, Exits, FunctionBlock,
    LoopBlock, Return, ThrowStatement, TryBlock, CatchBlock,
};
use crate::messages::mixins::Block;

verus! {

/// What the lowering carries down the tree.
pub struct ContextModel<'a> {
    /// The placeholder made for the label of the node being lowered.
    pub label: Option<u32>,
    /// The node that what is being lowered falls through to.
    pub most_recent_node: Option<u32>,
    /// Where an unlabelled `break` goes.
    pub nearest_breakable_node: Option<u32>,
    /// Where an unlabelled `continue` goes.
    pub nearest_continuable_node: Option<u32>,
    /// The exit of the function.
    pub sink_node: Option<u32>,
    /// The handlers in force, by the exception that each catches. Of two
    /// entries for one exception the later one counts.
    pub exception_nodes: Seq<(&'a str, u32)>,
}

/// The entry of a lowered construct, if it has one.
#[derive(Clone, Copy, Debug)]
pub enum ProcessedNode {
    /// The construct is entered at this node.
    Child(u32),
    /// The construct stands by itself and is not entered from its
    /// surroundings.
    Root,
}

/// The node that the last entry for `key` in `table` names.
pub open spec fn lookup<'a>(table: Seq<(&'a str, u32)>, key: Seq<char>) -> Option<u32>
    decreases table.len(),
{
    if table.len() == 0 {
        None
    } else if table.last().0@ == key {
        Some(table.last().1)
    } else {
        lookup(table.drop_last(), key)
    }
}

/// The target of the first edge among `edges`, from position `i` on, whose
/// payload is `wanted`.
pub open spec fn first_target<'a>(edges: Seq<(u32, Edge<'a>)>, wanted: Edge<'a>, i: int) -> Option<u32>
    decreases edges.len() - i,
{
    if i < 0 || i >= edges.len() {
        None
    } else if edges[i].1 == wanted {
        Some(edges[i].0)
    } else {
        first_target(edges, wanted, i + 1)
    }
}

/// The node of a plain statement.
pub open spec fn statement_node<'a>(statement: &'a str) -> Node<'a> {
    Node { label: None, node_type: NodeType::Statement { statement } }
}

/// The node of one expression of a condition.
pub open spec fn decision_node<'a>(decision: &'a str) -> Node<'a> {
    Node { label: None, node_type: NodeType::Decision { decision } }
}

/// The node of a `throw`.
pub open spec fn exception_node<'a>(statement: &'a str) -> Node<'a> {
    Node { label: None, node_type: NodeType::Exception { statement } }
}

/// The node of a `break`, `continue` or `return`, which carries `label`.
pub open spec fn control_node<'a>(label: Option<&'a str>, control: ControlType) -> Node<'a> {
    Node { label, node_type: NodeType::ControlNode(control) }
}

/// The placeholder for a label.
pub open spec fn label_node<'a>(label: &'a str) -> Node<'a> {
    Node { label: Some(label), node_type: NodeType::Label }
}

/// The entry of a function.
pub open spec fn source_node<'a>(name: Option<&'a str>) -> Node<'a> {
    Node { label: None, node_type: NodeType::Source { name } }
}

/// The exit of a function.
pub open spec fn sink_node<'a>(name: Option<&'a str>) -> Node<'a> {
    Node { label: None, node_type: NodeType::Sink { name } }
}

/// The placeholder that an unlabelled `break` below a breakable node goes to.
pub open spec fn break_placeholder() -> Node<'static> {
    sink_node(Some("Dummy If Break Node"))
}

/// The placeholder that the body of a loop falls through to.
pub open spec fn target_placeholder() -> Node<'static> {
    sink_node(Some("Dummy Target Sink"))
}

/// The placeholder that a loop's condition leads to when the loop has
/// neither body nor update.
pub open spec fn true_target_placeholder() -> Node<'static> {
    sink_node(Some("Decision True Target Dummy Node"))
}

/// The placeholder that an unlabelled `continue` in a loop goes to.
pub open spec fn continue_placeholder() -> Node<'static> {
    sink_node(None)
}

/// What is named as not implemented when a `yield` is met.
pub open spec fn yield_error() -> Seq<char> {
    "Yield"@
}

/// What is reported for a node that cannot stand where a statement stands.
pub open spec fn misplaced_error() -> Seq<char> {
    "You have a node in your blocks that can only be unpacked in a specific type of node."@
}

/// What is reported for a `throw` without an exception.
pub open spec fn throw_error() -> Seq<char> {
    "Throw statements must have at least one exception"@
}

/// Whether control leaves the sequence of statements at a node: a statement
/// that transfers control, a branch or a loop.
pub open spec fn exits_of<'a>(node: AstNode<'a>) -> Exits {
    node.exits_spec()
}

/// Adding a statement node for each of `statements` from position `i` on;
/// `made` holds the nodes made so far.
pub open spec fn add_statement_nodes<'a>(
    g: GraphModel<'a>,
    statements: Seq<&'a str>,
    i: int,
    made: Seq<u32>,
) -> Lowered<'a, Seq<u32>>
    decreases statements.len() - i,
{
    if i < 0 || i >= statements.len() {
        Ok((g, made))
    } else {
        match g.try_add_node(statement_node(statements[i])) {
            Err(e) => Err(e),
            Ok((g1, n)) => add_statement_nodes(g1, statements, i + 1, made.push(n)),
        }
    }
}

/// Adding a statement edge from each of `nodes` to the next, from position
/// `i` on.
pub open spec fn link_chain<'a>(g: GraphModel<'a>, nodes: Seq<u32>, i: int) -> Lowered<'a, ()>
    decreases nodes.len() - i,
{
    if i < 0 || i + 1 >= nodes.len() {
        Ok((g, ()))
    } else {
        match g.try_add_edge(nodes[i], nodes[i + 1], Edge::Statement) {
            Err(e) => Err(e),
            Ok((g1, _)) => link_chain(g1, nodes, i + 1),
        }
    }
}

/// A chain of statement nodes, one for each of `statements`, each linked to
/// the next.
pub open spec fn add_and_link<'a>(g: GraphModel<'a>, statements: Seq<&'a str>) -> Lowered<'a, Seq<u32>> {
    match add_statement_nodes(g, statements, 0, Seq::empty()) {
        Err(e) => Err(e),
        Ok((g1, nodes)) => match link_chain(g1, nodes, 0) {
            Err(e) => Err(e),
            Ok((g2, _)) => Ok((g2, nodes)),
        },
    }
}

/// How deep the connectives of a condition are nested.
pub open spec fn condition_height<'a>(condition: Decision<'a>) -> nat
    decreases condition,
{
    match condition {
        Decision::And(l, r) => 1 + if condition_height(*l) > condition_height(*r) {
            condition_height(*l)
        } else {
            condition_height(*r)
        },
        Decision::Or(l, r) => 1 + if condition_height(*l) > condition_height(*r) {
            condition_height(*l)
        } else {
            condition_height(*r)
        },
        Decision::Unit(_) => 0,
        Decision::Empty => 0,
    }
}

/// Lowering a condition: one decision node for each expression in it, each
/// with an edge for `true` and one for `false`. The decisions come back in
/// the order of the expressions; the first is where the condition is entered.
///
/// The right side of a connective is lowered first, against the targets of
/// the whole. The left side of `And` then leads to the right side when it
/// holds and to the `false` target when it does not; the left side of `Or`
/// leads to the `true` target when it holds and to the right side when it
/// does not. A connective whose right side has no decision is a failure.
pub open spec fn lower_condition<'a>(
    g: GraphModel<'a>,
    condition: Decision<'a>,
    true_target: u32,
    false_target: u32,
) -> Lowered<'a, Seq<u32>>
    decreases condition,
{
    match condition {
        Decision::Unit(expr) => match g.try_add_node(decision_node(expr)) {
            Err(e) => Err(e),
            Ok((g1, d)) => match g1.try_add_edge(d, true_target, Edge::Decision(Direction::True)) {
                Err(e) => Err(e),
                Ok((g2, _)) => match g2.try_add_edge(d, false_target, Edge::Decision(Direction::False)) {
                    Err(e) => Err(e),
                    Ok((g3, _)) => Ok((g3, seq![d])),
                },
            },
        },
        Decision::And(l, r) => match lower_condition(g, *r, true_target, false_target) {
            Err(e) => Err(e),
            Ok((g1, right)) => if right.len() == 0 {
                Err(MethodProcessingErrorView::MalformedAst)
            } else {
                match lower_condition(g1, *l, right[0], false_target) {
                    Err(e) => Err(e),
                    Ok((g2, left)) => Ok((g2, left + right)),
                }
            },
        },
        Decision::Or(l, r) => match lower_condition(g, *r, true_target, false_target) {
            Err(e) => Err(e),
            Ok((g1, right)) => if right.len() == 0 {
                Err(MethodProcessingErrorView::MalformedAst)
            } else {
                match lower_condition(g1, *l, true_target, right[0]) {
                    Err(e) => Err(e),
                    Ok((g2, left)) => Ok((g2, left + right)),
                }
            },
        },
        Decision::Empty => Ok((g, Seq::empty())),
    }
}

/// Making the placeholder for a node's label, if it has one. A label that is
/// the empty text is a failure.
pub open spec fn lower_label<'a>(g: GraphModel<'a>, label: Option<&'a str>) -> Lowered<'a, Option<u32>> {
    match label {
        None => Ok((g, None)),
        Some(l) => if l@.len() == 0 {
            Err(
                MethodProcessingErrorView::LabelProcessing {
                    error: LabelProcessingErrorView::EmptySomeLabel,
                },
            )
        } else {
            match g.try_add_node(label_node(l)) {
                Err(e) => Err(e),
                Ok((g1, n)) => Ok((g1, Some(n))),
            }
        },
    }
}

/// Giving `target` a copy of each edge that enters `placeholder`, and then
/// removing `placeholder`. With no edge to copy, no target is needed; with
/// edges and no target, the step fails.
pub open spec fn collapse<'a>(g: GraphModel<'a>, placeholder: u32, target: Option<u32>) -> Lowered<'a, ()> {
    if g.incoming(placeholder).len() > 0 {
        match target {
            None => Err(MethodProcessingErrorView::MalformedAst),
            Some(t) => match g.redirect(placeholder, t) {
                Err(e) => Err(e),
                Ok((g1, _)) => Ok((g1.remove_node(placeholder), ())),
            },
        }
    } else {
        Ok((g.remove_node(placeholder), ()))
    }
}

/// The end of lowering a node: the `break` placeholder gives way to the
/// node's continuation, and a label placeholder gets its `Next` edge to the
/// entry of what it labels and its `Break` edge to the continuation.
pub open spec fn finish_node<'a>(
    g: GraphModel<'a>,
    most_recent_node: Option<u32>,
    dummy_break: u32,
    label: Option<u32>,
    content: ProcessedNode,
) -> Lowered<'a, ProcessedNode> {
    match most_recent_node {
        None => Err(MethodProcessingErrorView::MalformedAst),
        Some(next) => match g.redirect(dummy_break, next) {
            Err(e) => Err(e),
            Ok((g1, _)) => {
                let g2 = g1.remove_node(dummy_break);
                match (label, content) {
                    (Some(l), ProcessedNode::Child(c)) => match g2.try_add_edge(
                        l,
                        c,
                        Edge::Label(LabelEdge::Next),
                    ) {
                        Err(e) => Err(e),
                        Ok((g3, _)) => match g3.try_add_edge(l, next, Edge::Label(LabelEdge::Break)) {
                            Err(e) => Err(e),
                            Ok((g4, _)) => Ok((g4, ProcessedNode::Child(l))),
                        },
                    },
                    _ => Ok((g2, content)),
                }
            },
        },
    }
}

/// Adding a statement edge from each entry in `nodes` that control does not
/// leave at to the entry of the statement after it, from position `j` down.
/// `nodes` holds the entries of a block's statements, the last statement
/// first.
pub open spec fn link_statements<'a>(g: GraphModel<'a>, nodes: Seq<(u32, Exits)>, j: int) -> Lowered<'a, ()>
    decreases j,
{
    if j <= 0 || j >= nodes.len() {
        Ok((g, ()))
    } else if nodes[j].1 == Exits::No {
        match g.try_add_edge(nodes[j].0, nodes[j - 1].0, Edge::Statement) {
            Err(e) => Err(e),
            Ok((g1, _)) => link_statements(g1, nodes, j - 1),
        }
    } else {
        link_statements(g, nodes, j - 1)
    }
}

/// The entry and the end of a block whose statements have the entries
/// `nodes`, the last statement first.
pub open spec fn classify(nodes: Seq<(u32, Exits)>) -> ProcessedBlock {
    if nodes.len() == 0 {
        ProcessedBlock::Empty
    } else if nodes.len() == 1 {
        ProcessedBlock::Statement(nodes[0].0)
    } else {
        ProcessedBlock::Boundaries { start_node: nodes.last().0, end_node: nodes[0].0 }
    }
}

/// The end of lowering a block: its statements are linked in order, and the
/// last one, if control does not leave at it, to the block's continuation.
pub open spec fn finish_block<'a>(
    g: GraphModel<'a>,
    most_recent_node: Option<u32>,
    nodes: Seq<(u32, Exits)>,
) -> Lowered<'a, ProcessedBlock> {
    match link_statements(g, nodes, nodes.len() - 1) {
        Err(e) => Err(e),
        Ok((g1, _)) => if nodes.len() > 0 && nodes[0].1 == Exits::No && most_recent_node is Some {
            match g1.try_add_edge(nodes[0].0, most_recent_node->0, Edge::Statement) {
                Err(e) => Err(e),
                Ok((g2, _)) => Ok((g2, classify(nodes))),
            }
        } else {
            Ok((g1, classify(nodes)))
        },
    }
}

/// Lowering a `throw`: an exception node with one exception edge. The edge
/// goes to the handler of the first listed exception that has one, and
/// carries that exception; with no handler it goes to the function's exit and
/// carries the first listed exception.
pub open spec fn lower_throw<'a>(g: GraphModel<'a>, ctx: ContextModel<'a>, throw: ThrowStatement<'a>) -> Lowered<'a, ProcessedNode> {
    if throw.exception@.len() == 0 {
        Err(MethodProcessingErrorView::NotSupported(throw_error()))
    } else {
        match throw_target(ctx, throw.exception@, 0) {
            None => Err(MethodProcessingErrorView::MalformedAst),
            Some((target, exception)) => match g.try_add_node(exception_node(throw.statement.code)) {
                Err(e) => Err(e),
                Ok((g1, n)) => match g1.try_add_edge(n, target, Edge::Exception { exception }) {
                    Err(e) => Err(e),
                    Ok((g2, _)) => Ok((g2, ProcessedNode::Child(n))),
                },
            },
        }
    }
}

/// Where a `throw` of `exceptions` goes and which exception its edge carries,
/// looking from position `i` on: the handler of the first exception that has
/// one, else the function's exit with the first exception of all.
pub open spec fn throw_target<'a>(ctx: ContextModel<'a>, exceptions: Seq<&'a str>, i: int) -> Option<(u32, &'a str)>
    decreases exceptions.len() - i,
{
    if i < 0 || i >= exceptions.len() {
        match ctx.sink_node {
            Some(sink) if exceptions.len() > 0 => Some((sink, exceptions[0])),
            _ => None,
        }
    } else {
        match lookup(ctx.exception_nodes, exceptions[i]@) {
            Some(n) => Some((n, exceptions[i])),
            None => throw_target(ctx, exceptions, i + 1),
        }
    }
}

/// Lowering a `break` or `continue`: a control node that carries the label,
/// with a statement edge to `target` if it has no label and there is a
/// target.
pub open spec fn lower_jump<'a>(
    g: GraphModel<'a>,
    label: Option<&'a str>,
    control: ControlType,
    target: Option<u32>,
) -> Lowered<'a, ProcessedNode> {
    match g.try_add_node(control_node(label, control)) {
        Err(e) => Err(e),
        Ok((g1, n)) => match (label, target) {
            (None, Some(t)) => match g1.try_add_edge(n, t, Edge::Statement) {
                Err(e) => Err(e),
                Ok((g2, _)) => Ok((g2, ProcessedNode::Child(n))),
            },
            _ => Ok((g1, ProcessedNode::Child(n))),
        },
    }
}

/// Lowering a `return`: a control node that carries the expression, with a
/// statement edge to the function's exit if there is one.
pub open spec fn lower_return<'a>(g: GraphModel<'a>, ctx: ContextModel<'a>, ret: Return<'a>) -> Lowered<'a, ProcessedNode> {
    match g.try_add_node(control_node(ret.expression, ControlType::Return)) {
        Err(e) => Err(e),
        Ok((g1, n)) => match ctx.sink_node {
            Some(t) => match g1.try_add_edge(n, t, Edge::Statement) {
                Err(e) => Err(e),
                Ok((g2, _)) => Ok((g2, ProcessedNode::Child(n))),
            },
            None => Ok((g1, ProcessedNode::Child(n))),
        },
    }
}

/// Where the condition of a loop leads when it holds: the body, else the
/// update, else a placeholder made for the purpose. The flag says whether the
/// placeholder was made.
pub open spec fn loop_true_target<'a>(g: GraphModel<'a>, update: Seq<u32>, block: ProcessedBlock) -> Lowered<'a, (u32, bool)> {
    match block.start() {
        Some(body_start) => Ok((g, (body_start, false))),
        None => if update.len() > 0 {
            Ok((g, (update[0], false)))
        } else {
            match g.try_add_node(true_target_placeholder()) {
                Err(e) => Err(e),
                Ok((g1, n)) => Ok((g1, (n, true))),
            }
        },
    }
}

/// Where the initialization of a loop leads: the condition, else the body,
/// else the update, else what follows the loop.
pub open spec fn loop_init_target(update: Seq<u32>, next_node: u32, block: ProcessedBlock, decisions: Seq<u32>) -> u32 {
    if decisions.len() > 0 {
        decisions[0]
    } else if block.start() is Some {
        block.start()->0
    } else if update.len() > 0 {
        update[0]
    } else {
        next_node
    }
}

/// Where the update of a loop leads: the condition, else the body, else the
/// update itself, which begins at `first`.
pub open spec fn loop_update_target(block: ProcessedBlock, decisions: Seq<u32>, first: u32) -> u32 {
    if decisions.len() > 0 {
        decisions[0]
    } else if block.start() is Some {
        block.start()->0
    } else {
        first
    }
}

/// Where the end of a loop's body, and a `continue` in it, lead: the update,
/// else the condition, else the body.
pub open spec fn loop_back_target(update: Seq<u32>, decisions: Seq<u32>, block: ProcessedBlock) -> Option<u32> {
    if update.len() > 0 {
        Some(update[0])
    } else if decisions.len() > 0 {
        Some(decisions[0])
    } else {
        block.start()
    }
}

/// Where a loop is entered: the initialization, else the condition if it is
/// tested first, else the update if there is no body, else the body.
pub open spec fn loop_root(
    init: Seq<u32>,
    update: Seq<u32>,
    decisions: Seq<u32>,
    first_check: bool,
    block: ProcessedBlock,
) -> Option<u32> {
    if init.len() > 0 {
        Some(init[0])
    } else if decisions.len() > 0 && first_check {
        Some(decisions[0])
    } else if block is Empty && update.len() > 0 {
        Some(update[0])
    } else {
        block.start()
    }
}

/// Removing the placeholder that the condition of a loop led to when it held.
/// A placeholder at `true_target`, if the loop has a condition, gives way to
/// the condition's entry; one made for the purpose is removed in any case.
pub open spec fn collapse_true_target<'a>(
    g: GraphModel<'a>,
    true_target: u32,
    made: bool,
    decisions: Seq<u32>,
) -> Lowered<'a, ()> {
    if !g.has_node(true_target) {
        Err(MethodProcessingErrorView::MalformedAst)
    } else if g.nodes[true_target].node_type is Sink && decisions.len() > 0 {
        match g.redirect(true_target, decisions[0]) {
            Err(e) => Err(e),
            Ok((g1, _)) => Ok((g1.remove_node(true_target), ())),
        }
    } else if made {
        Ok((g.remove_node(true_target), ()))
    } else {
        Ok((g, ()))
    }
}

/// The parts of a loop once its statements and body are lowered.
pub struct LoopParts {
    pub init: Seq<u32>,
    pub update: Seq<u32>,
    pub next_node: u32,
    pub continue_node: u32,
    pub dummy_target: u32,
    pub block: ProcessedBlock,
    pub first_check: bool,
    pub label: Option<u32>,
}

/// Linking the last initialization statement and the last update statement
/// of a loop to what follows each.
pub open spec fn link_loop_statements<'a>(g: GraphModel<'a>, parts: LoopParts, decisions: Seq<u32>) -> Lowered<'a, ()> {
    let after_init = if parts.init.len() > 0 {
        g.try_add_edge(
            parts.init.last(),
            loop_init_target(parts.update, parts.next_node, parts.block, decisions),
            Edge::Statement,
        )
    } else {
        Ok((g, ()))
    };
    match after_init {
        Err(e) => Err(e),
        Ok((g1, _)) => if parts.update.len() > 0 {
            g1.try_add_edge(
                parts.update.last(),
                loop_update_target(parts.block, decisions, parts.update[0]),
                Edge::Statement,
            )
        } else {
            Ok((g1, ()))
        },
    }
}

/// The end of lowering a loop, once its condition is lowered too: the parts
/// are linked into a cycle, the placeholders give way to the node that the
/// loop goes back to, and a label placeholder gets its `Continue` edge to
/// that node.
///
/// A loop without any part makes no node and has no entry. A loop that tests
/// its condition after a body that has no entry is a failure.
pub open spec fn finish_loop<'a>(
    g: GraphModel<'a>,
    parts: LoopParts,
    true_target: u32,
    made: bool,
    decisions: Seq<u32>,
) -> Lowered<'a, ProcessedNode> {
    match collapse_true_target(g, true_target, made, decisions) {
        Err(e) => Err(e),
        Ok((g1, _)) => match link_loop_statements(g1, parts, decisions) {
            Err(e) => Err(e),
            Ok((g2, _)) => match collapse(
                g2,
                parts.continue_node,
                loop_back_target(parts.update, decisions, parts.block),
            ) {
                Err(e) => Err(e),
                Ok((g3, _)) => match collapse(
                    g3,
                    parts.dummy_target,
                    loop_back_target(parts.update, decisions, parts.block),
                ) {
                    Err(e) => Err(e),
                    Ok((g4, _)) => match loop_root(
                        parts.init,
                        parts.update,
                        decisions,
                        parts.first_check,
                        parts.block,
                    ) {
                        None => if decisions.len() == 0 {
                            Ok((g4, ProcessedNode::Root))
                        } else {
                            Err(MethodProcessingErrorView::MalformedAst)
                        },
                        Some(root) => match (
                            parts.label,
                            loop_back_target(parts.update, decisions, parts.block),
                        ) {
                            (Some(l), Some(t)) => match g4.try_add_edge(
                                l,
                                t,
                                Edge::Label(LabelEdge::Continue),
                            ) {
                                Err(e) => Err(e),
                                Ok((g5, _)) => Ok((g5, ProcessedNode::Child(root))),
                            },
                            _ => Ok((g4, ProcessedNode::Child(root))),
                        },
                    },
                },
            },
        },
    }
}

/// Lowering the condition of a loop whose other parts are lowered, and
/// finishing the loop.
pub open spec fn lower_loop_condition<'a>(g: GraphModel<'a>, parts: LoopParts, condition: Decision<'a>) -> Lowered<'a, ProcessedNode> {
    match loop_true_target(g, parts.update, parts.block) {
        Err(e) => Err(e),
        Ok((g1, (true_target, made))) => match lower_condition(
            g1,
            condition,
            true_target,
            parts.next_node,
        ) {
            Err(e) => Err(e),
            Ok((g2, decisions)) => finish_loop(g2, parts, true_target, made, decisions),
        },
    }
}

/// The end of lowering a branch: its condition is lowered against the entry
/// of the body, or the continuation if the body has none, and `false_target`.
/// The branch is entered at the condition, else at the body.
pub open spec fn finish_decision_block<'a>(
    g: GraphModel<'a>,
    condition: Decision<'a>,
    next_node: u32,
    false_target: u32,
    block: ProcessedBlock,
) -> Lowered<'a, ProcessedNode> {
    let true_target = match block.start() {
        Some(n) => n,
        None => next_node,
    };
    match lower_condition(g, condition, true_target, false_target) {
        Err(e) => Err(e),
        Ok((g1, decisions)) => if decisions.len() > 0 {
            Ok((g1, ProcessedNode::Child(decisions[0])))
        } else {
            match block.start() {
                Some(n) => Ok((g1, ProcessedNode::Child(n))),
                None => Ok((g1, ProcessedNode::Root)),
            }
        },
    }
}

/// The entries that the exception table gets for one handler: one for each
/// exception it catches, from position `i` on, all naming `target`.
pub open spec fn catch_entries<'a>(
    table: Seq<(&'a str, u32)>,
    exceptions: Seq<&'a str>,
    i: int,
    target: u32,
) -> Seq<(&'a str, u32)>
    decreases exceptions.len() - i,
{
    if i < 0 || i >= exceptions.len() {
        table
    } else {
        catch_entries(table.push((exceptions[i], target)), exceptions, i + 1, target)
    }
}

/// Whether an unlabelled `break` below a node leaves the node: the node is
/// marked so, or it is a loop.
pub open spec fn is_breakable<'a>(node: AstNode<'a>) -> bool {
    node.breakable || node.contents is LoopBlock
}

/// Lowering a node of the syntax tree.
///
/// A placeholder stands in for where an unlabelled `break` goes, if the node
/// is breakable; the node's label, if it has one, gets a placeholder of its
/// own; then the node's contents are lowered and the placeholders are dealt
/// with as `finish_node` says.
pub open spec fn lower_node<'a>(g: GraphModel<'a>, ctx: ContextModel<'a>, node: AstNode<'a>) -> Lowered<'a, ProcessedNode>
    decreases node, 0nat,
{
    match g.try_add_node(break_placeholder()) {
        Err(e) => Err(e),
        Ok((g1, dummy_break)) => match lower_label(g1, node.label) {
            Err(e) => Err(e),
            Ok((g2, label)) => match lower_contents(
                g2,
                ContextModel {
                    label,
                    nearest_breakable_node: if is_breakable(node) {
                        Some(dummy_break)
                    } else {
                        ctx.nearest_breakable_node
                    },
                    ..ctx
                },
                node.contents,
            ) {
                Err(e) => Err(e),
                Ok((g3, content)) => finish_node(g3, ctx.most_recent_node, dummy_break, label, content),
            },
        },
    }
}

/// Lowering what a node holds, by its kind.
pub open spec fn lower_contents<'a>(
    g: GraphModel<'a>,
    ctx: ContextModel<'a>,
    contents: AstNodeContents<'a>,
) -> Lowered<'a, ProcessedNode>
    decreases contents, 0nat,
{
    match contents {
        AstNodeContents::FunctionBlock(f) => lower_function(g, ctx, f),
        AstNodeContents::LoopBlock(l) => lower_loop(g, ctx, l),
        AstNodeContents::DecisionBlock(d) => lower_decision_block(g, ctx, d),
        AstNodeContents::TryBlock(t) => lower_try(g, ctx, t),
        AstNodeContents::ThrowStatement(t) => lower_throw(g, ctx, t),
        AstNodeContents::Statement(s) => match g.try_add_node(statement_node(s.statement.code)) {
            Err(e) => Err(e),
            Ok((g1, n)) => Ok((g1, ProcessedNode::Child(n))),
        },
        AstNodeContents::YieldStatement(_) => Err(MethodProcessingErrorView::NotImplemented(yield_error())),
        AstNodeContents::Break(b) => lower_jump(g, b.label, ControlType::Break, ctx.nearest_breakable_node),
        AstNodeContents::Continue(c) => lower_jump(
            g,
            c.label,
            ControlType::Continue,
            ctx.nearest_continuable_node,
        ),
        AstNodeContents::Return(r) => lower_return(g, ctx, r),
        AstNodeContents::Block(b) => match lower_block(g, ctx, b) {
            Err(e) => Err(e),
            Ok((g1, block)) => match block.start() {
                Some(n) => Ok((g1, ProcessedNode::Child(n))),
                None => Ok((g1, ProcessedNode::Root)),
            },
        },
        _ => Err(MethodProcessingErrorView::NotSupported(misplaced_error())),
    }
}

/// Lowering the statements of a block from the last to the first, each
/// against the entry of the one after it; `i` statements are still to be
/// lowered, and `nodes` holds the entries made so far, the last statement
/// first.
pub open spec fn lower_statements<'a>(
    g: GraphModel<'a>,
    ctx: ContextModel<'a>,
    statements: Seq<AstNode<'a>>,
    i: int,
    nodes: Seq<(u32, Exits)>,
) -> Lowered<'a, Seq<(u32, Exits)>>
    decreases statements, i,
{
    if i <= 0 || i > statements.len() {
        Ok((g, nodes))
    } else {
        match lower_node(g, ctx, statements[i - 1]) {
            Err(e) => Err(e),
            Ok((g1, ProcessedNode::Child(n))) => lower_statements(
                g1,
                ContextModel { most_recent_node: Some(n), ..ctx },
                statements,
                i - 1,
                nodes.push((n, exits_of(statements[i - 1]))),
            ),
            Ok((g1, ProcessedNode::Root)) => lower_statements(g1, ctx, statements, i - 1, nodes),
        }
    }
}

/// Lowering a block: its statements from the last to the first, then the
/// links between them and to the continuation.
pub open spec fn lower_block<'a>(g: GraphModel<'a>, ctx: ContextModel<'a>, block: Block<'a>) -> Lowered<'a, ProcessedBlock>
    decreases block, 0nat,
{
    match lower_statements(g, ctx, block.statements@, block.statements@.len() as int, Seq::empty()) {
        Err(e) => Err(e),
        Ok((g1, nodes)) => finish_block(g1, ctx.most_recent_node, nodes),
    }
}

/// The graph of a function before its labels are resolved, and the
/// function's source: a source and a sink, and the body between them.
pub open spec fn build_function<'a>(g: GraphModel<'a>, ctx: ContextModel<'a>, function: FunctionBlock<'a>) -> Lowered<'a, u32>
    decreases function, 0nat,
{
    match g.try_add_node(source_node(function.name)) {
        Err(e) => Err(e),
        Ok((g1, source)) => match g1.try_add_node(sink_node(function.name)) {
            Err(e) => Err(e),
            Ok((g2, sink)) => match lower_block(
                g2,
                ContextModel { sink_node: Some(sink), most_recent_node: Some(sink), ..ctx },
                function.block,
            ) {
                Err(e) => Err(e),
                Ok((g3, block)) => match block.start() {
                    Some(start) => match g3.try_add_edge(source, start, Edge::Statement) {
                        Err(e) => Err(e),
                        Ok((g4, _)) => Ok((g4, source)),
                    },
                    None => Ok((g3, source)),
                },
            },
        },
    }
}

/// Lowering a function: a source and a sink, the body between them, and then
/// the pass that resolves the labels, from the source.
pub open spec fn lower_function<'a>(g: GraphModel<'a>, ctx: ContextModel<'a>, function: FunctionBlock<'a>) -> Lowered<'a, ProcessedNode>
    decreases function, 1nat,
{
    match build_function(g, ctx, function) {
        Err(e) => Err(e),
        Ok((g1, source)) => match crate::cfg::labels::resolve_labels(g1, source) {
            Err(e) => Err(e),
            Ok((g2, _)) => Ok((g2, ProcessedNode::Root)),
        },
    }
}

/// Lowering a loop: the initialization and the update as chains of
/// statements, the body against two placeholders, then the condition; see
/// `finish_loop` for how they are joined. A loop that tests its condition
/// after the body and has initialization or update is a failure.
pub open spec fn lower_loop<'a>(g: GraphModel<'a>, ctx: ContextModel<'a>, lp: LoopBlock<'a>) -> Lowered<'a, ProcessedNode>
    decreases lp, 0nat,
{
    if !lp.first_iteration_condition_check && (lp.update@.len() > 0 || lp.initialization@.len() > 0) {
        Err(MethodProcessingErrorView::TriedToCreateDoForLoop)
    } else {
        match add_and_link(g, lp.initialization@) {
            Err(e) => Err(e),
            Ok((g1, init)) => match add_and_link(g1, lp.update@) {
                Err(e) => Err(e),
                Ok((g2, update)) => match ctx.most_recent_node {
                    None => Err(MethodProcessingErrorView::MalformedAst),
                    Some(next_node) => match g2.try_add_node(continue_placeholder()) {
                        Err(e) => Err(e),
                        Ok((g3, continue_node)) => match g3.try_add_node(target_placeholder()) {
                            Err(e) => Err(e),
                            Ok((g4, dummy_target)) => match lower_block(
                                g4,
                                ContextModel {
                                    most_recent_node: Some(dummy_target),
                                    nearest_continuable_node: Some(continue_node),
                                    ..ctx
                                },
                                lp.block,
                            ) {
                                Err(e) => Err(e),
                                Ok((g5, block)) => lower_loop_condition(
                                    g5,
                                    LoopParts {
                                        init,
                                        update,
                                        next_node,
                                        continue_node,
                                        dummy_target,
                                        block,
                                        first_check: lp.first_iteration_condition_check,
                                        label: ctx.label,
                                    },
                                    lp.condition,
                                ),
                            },
                        },
                    },
                },
            },
        }
    }
}

/// Lowering the `else` of a branch against the continuation `next_node`: the
/// node is lowered, and its entry, if control does not leave at it, is linked
/// to the continuation. What comes back is where the branch leads when its
/// condition does not hold.
pub open spec fn lower_else<'a>(g: GraphModel<'a>, ctx: ContextModel<'a>, node: AstNode<'a>, next_node: u32) -> Lowered<'a, u32>
    decreases node, 1nat,
{
    match lower_node(g, ctx, node) {
        Err(e) => Err(e),
        Ok((g1, ProcessedNode::Root)) => Ok((g1, next_node)),
        Ok((g1, ProcessedNode::Child(n))) => if exits_of(node) == Exits::No {
            match g1.try_add_edge(n, next_node, Edge::Statement) {
                Err(e) => Err(e),
                Ok((g2, _)) => Ok((g2, n)),
            }
        } else {
            Ok((g1, n))
        },
    }
}

/// Lowering a branch: the `else`, if there is one, then the body, both
/// against the continuation, then the condition.
pub open spec fn lower_decision_block<'a>(
    g: GraphModel<'a>,
    ctx: ContextModel<'a>,
    decision: DecisionBlock<'a>,
) -> Lowered<'a, ProcessedNode>
    decreases decision, 0nat,
{
    match ctx.most_recent_node {
        None => Err(MethodProcessingErrorView::MalformedAst),
        Some(next_node) => {
            let after_else = match decision.else_node {
                Some(e) => lower_else(g, ctx, *e, next_node),
                None => Ok((g, next_node)),
            };
            match after_else {
                Err(e) => Err(e),
                Ok((g1, false_target)) => match lower_block(g1, ctx, decision.block) {
                    Err(e) => Err(e),
                    Ok((g2, block)) => finish_decision_block(
                        g2,
                        decision.condition,
                        next_node,
                        false_target,
                        block,
                    ),
                },
            }
        },
    }
}

/// Lowering the handlers of a `try` from the last to the first, each against
/// the continuation `next_node`; `i` handlers are still to be lowered, and
/// `table` holds the entries made so far. Each exception that a handler
/// catches gets an entry that names the entry of the handler's body, or the
/// continuation if the body has none.
pub open spec fn lower_catches<'a>(
    g: GraphModel<'a>,
    ctx: ContextModel<'a>,
    catches: Seq<CatchBlock<'a>>,
    i: int,
    next_node: u32,
    table: Seq<(&'a str, u32)>,
) -> Lowered<'a, Seq<(&'a str, u32)>>
    decreases catches, i,
{
    if i <= 0 || i > catches.len() {
        Ok((g, table))
    } else {
        match lower_block(g, ctx, catches[i - 1].block) {
            Err(e) => Err(e),
            Ok((g1, block)) => lower_catches(
                g1,
                ctx,
                catches,
                i - 1,
                next_node,
                catch_entries(
                    table,
                    catches[i - 1].exception_types@,
                    0,
                    match block.start() {
                        Some(n) => n,
                        None => next_node,
                    },
                ),
            ),
        }
    }
}

/// Lowering the handlers and the body of a `try` against the continuation
/// `next_node`. The body is lowered with the handlers in force that were in
/// force around the `try`, and after them those of the `try` itself, which
/// count first. The `try` is entered at its body, or at `next_node` if the
/// body has no entry.
pub open spec fn lower_try_body<'a>(
    g: GraphModel<'a>,
    ctx: ContextModel<'a>,
    t: TryBlock<'a>,
    next_node: u32,
) -> Lowered<'a, ProcessedNode>
    decreases t, 0nat,
{
    let inner = ContextModel { most_recent_node: Some(next_node), ..ctx };
    match lower_catches(g, inner, t.catches@, t.catches@.len() as int, next_node, ctx.exception_nodes) {
        Err(e) => Err(e),
        Ok((g1, table)) => match lower_block(g1, ContextModel { exception_nodes: table, ..inner }, t.block) {
            Err(e) => Err(e),
            Ok((g2, block)) => Ok(
                (
                    g2,
                    ProcessedNode::Child(
                        match block.start() {
                            Some(n) => n,
                            None => next_node,
                        },
                    ),
                ),
            ),
        },
    }
}

/// Lowering a `try`: the `finally` block, if there is one, against the
/// enclosing continuation; then the handlers and the body against the entry
/// of the `finally` block, or the enclosing continuation where there is no
/// such entry.
pub open spec fn lower_try<'a>(g: GraphModel<'a>, ctx: ContextModel<'a>, t: TryBlock<'a>) -> Lowered<'a, ProcessedNode>
    decreases t, 1nat,
{
    match ctx.most_recent_node {
        None => Err(MethodProcessingErrorView::MalformedAst),
        Some(most_recent) => match t.finally {
            Some(f) => match lower_block(g, ctx, f) {
                Err(e) => Err(e),
                Ok((g1, block)) => lower_try_body(
                    g1,
                    ctx,
                    t,
                    match block.start() {
                        Some(n) => n,
                        None => most_recent,
                    },
                ),
            },
            None => lower_try_body(g, ctx, t, most_recent),
        },
    }
}

/// The context that the lowering of a method starts from.
pub open spec fn base_context() -> ContextModel<'static> {
    ContextModel {
        label: None,
        most_recent_node: None,
        nearest_breakable_node: None,
        nearest_continuable_node: None,
        sink_node: None,
        exception_nodes: Seq::empty(),
    }
}

/// The control-flow graph of a method: that of the function at the root of
/// the tree, which must have a name.
pub open spec fn lower_method<'a>(method: AstNode<'a>) -> Result<GraphModel<'a>, MethodProcessingErrorView> {
    match method.contents {
        AstNodeContents::FunctionBlock(f) => if f.name is Some {
            match lower_function(GraphModel::empty(), base_context(), f) {
                Err(e) => Err(e),
                Ok((g, _)) => Ok(g),
            }
        } else {
            Err(MethodProcessingErrorView::TopLevelAnonMethod)
        },
        _ => Err(MethodProcessingErrorView::NotAMethod),
    }
}

} // verus!
