//! Kinds of syntax trees of which more is shown than of all: those without
//! a function inside the function, those in which no `return` stands in a
//! function inside the function, those in which no `try` without an entry
//! stands last, and those in which every loop goes back to a node of its
//! own.

use vstd::prelude::*;
use crate::messages::ast_node::{AstNode, AstNodeContents, Decision, TryBlock};
use crate::messages::mixins::Block;

verus! {

/// Whether a condition holds an expression.
pub open spec fn has_unit<'a>(condition: Decision<'a>) -> bool
    decreases condition,
{
    match condition {
        Decision::Unit(_) => true,
        Decision::And(l, r) => has_unit(*l) || has_unit(*r),
        Decision::Or(l, r) => has_unit(*l) || has_unit(*r),
        Decision::Empty => false,
    }
}

/// Whether lowering a node gives it an entry.
pub open spec fn node_yields<'a>(node: AstNode<'a>) -> bool
    decreases node, 1nat,
{
    contents_yields(node.contents)
}

/// Whether lowering what a node holds gives an entry: a statement always
/// does; a branch does with a condition or a body that has an entry; a loop
/// does with any part that makes a node; a function never does.
pub open spec fn contents_yields<'a>(contents: AstNodeContents<'a>) -> bool
    decreases contents, 0nat,
{
    match contents {
        AstNodeContents::Statement(_) => true,
        AstNodeContents::ThrowStatement(_) => true,
        AstNodeContents::Break(_) => true,
        AstNodeContents::Continue(_) => true,
        AstNodeContents::Return(_) => true,
        AstNodeContents::TryBlock(_) => true,
        AstNodeContents::DecisionBlock(d) => has_unit(d.condition) || block_yields(d.block),
        AstNodeContents::LoopBlock(l) => l.initialization@.len() > 0 || l.update@.len() > 0 || (has_unit(
            l.condition,
        ) && l.first_iteration_condition_check) || block_yields(l.block),
        AstNodeContents::Block(b) => block_yields(b),
        _ => false,
    }
}

/// Whether lowering a block gives it an entry: one of its statements has
/// one.
pub open spec fn block_yields<'a>(block: Block<'a>) -> bool
    decreases block, 0nat,
{
    exists|i: int| 0 <= i < block.statements@.len() && node_yields(#[trigger] block.statements@[i])
}

/// Whether a node holds no function.
pub open spec fn flat_node<'a>(node: AstNode<'a>) -> bool
    decreases node, 1nat,
{
    flat_contents(node.contents)
}

/// Whether what a node holds is no function and holds none.
pub open spec fn flat_contents<'a>(contents: AstNodeContents<'a>) -> bool
    decreases contents, 0nat,
{
    match contents {
        AstNodeContents::FunctionBlock(_) => false,
        AstNodeContents::LoopBlock(l) => flat_block(l.block),
        AstNodeContents::DecisionBlock(d) => flat_block(d.block) && match d.else_node {
            Some(e) => flat_node(*e),
            None => true,
        },
        AstNodeContents::TryBlock(t) => {
            &&& flat_block(t.block)
            &&& match t.finally {
                Some(f) => flat_block(f),
                None => true,
            }
            &&& forall|i: int| 0 <= i < t.catches@.len() ==> flat_block((#[trigger] t.catches@[i]).block)
        },
        AstNodeContents::Block(b) => flat_block(b),
        _ => true,
    }
}

/// Whether no statement of a block holds a function.
pub open spec fn flat_block<'a>(block: Block<'a>) -> bool
    decreases block, 0nat,
{
    forall|i: int| 0 <= i < block.statements@.len() ==> flat_node(#[trigger] block.statements@[i])
}

/// Whether no `try` that has neither an entry nor a label stands last in a
/// node, so that what follows the node would be what follows the `try`. A
/// `try` that has a label is entered at the label's placeholder.
pub open spec fn anchored_node<'a>(node: AstNode<'a>) -> bool
    decreases node, 1nat,
{
    if node.label is Some {
        quiet_contents(node.contents)
    } else {
        anchored_contents(node.contents)
    }
}

/// Whether no `try` that has neither an entry nor a label stands last in
/// what a node holds, and what the node holds is no such `try` itself. What
/// stands in a loop or in a function is followed by a node of the loop or by
/// the exit of the function, and so never stands last.
pub open spec fn anchored_contents<'a>(contents: AstNodeContents<'a>) -> bool
    decreases contents, 1nat,
{
    match contents {
        AstNodeContents::DecisionBlock(d) => anchored_block(d.block) && match d.else_node {
            Some(e) => anchored_node(*e),
            None => true,
        },
        AstNodeContents::TryBlock(t) => quiet_contents(contents) && (block_yields(t.block) || match t.finally {
            Some(f) => block_yields(f),
            None => false,
        }),
        AstNodeContents::Block(b) => anchored_block(b),
        _ => true,
    }
}

/// Whether no `try` that has neither an entry nor a label stands last in
/// what a node holds; what the node holds may be such a `try` itself. In a
/// `try` with a `finally` block that has an entry, the handlers and the body
/// are followed by that entry.
pub open spec fn quiet_contents<'a>(contents: AstNodeContents<'a>) -> bool
    decreases contents, 0nat,
{
    match contents {
        AstNodeContents::DecisionBlock(d) => anchored_block(d.block) && match d.else_node {
            Some(e) => anchored_node(*e),
            None => true,
        },
        AstNodeContents::TryBlock(t) => match t.finally {
            Some(f) => anchored_block(f) && (block_yields(f) || quiet_try(t)),
            None => quiet_try(t),
        },
        AstNodeContents::Block(b) => anchored_block(b),
        _ => true,
    }
}

/// Whether no `try` that has neither an entry nor a label stands last in
/// the body of a `try` or in one of its handlers.
pub open spec fn quiet_try<'a>(t: TryBlock<'a>) -> bool
    decreases t, 0nat,
{
    &&& anchored_block(t.block)
    &&& forall|i: int| 0 <= i < t.catches@.len() ==> anchored_block((#[trigger] t.catches@[i]).block)
}

/// Whether no `try` that has neither an entry nor a label stands last in a
/// block.
pub open spec fn anchored_block<'a>(block: Block<'a>) -> bool
    decreases block, 0nat,
{
    anchored_statements(block.statements@, block.statements@.len() as int)
}

/// Whether no `try` that has neither an entry nor a label stands last
/// among the first `i` of `statements`: the last of them is anchored, and
/// either has an entry or the statements before it are anchored too.
pub open spec fn anchored_statements<'a>(statements: Seq<AstNode<'a>>, i: int) -> bool
    decreases statements, i,
{
    if i <= 0 || i > statements.len() {
        true
    } else {
        anchored_node(statements[i - 1]) && (node_yields(statements[i - 1]) || anchored_statements(
            statements,
            i - 1,
        ))
    }
}

/// Whether a method is a function in which no `try` that has neither an
/// entry nor a label stands last, so that the sink would be what follows the
/// `try`.
pub open spec fn anchored_method<'a>(method: AstNode<'a>) -> bool {
    method.contents is FunctionBlock && anchored_block(method.contents->FunctionBlock_0.block)
}

/// Whether every `return` in a node stands where the exit of the method is
/// the exit in force: `home` says whether it is in force at the node.
pub open spec fn homing_node<'a>(node: AstNode<'a>, home: bool) -> bool
    decreases node, 1nat,
{
    homing_contents(node.contents, home)
}

/// Whether every `return` in what a node holds stands where the exit of the
/// method is the exit in force. In a function inside the method, the exit of
/// that function is in force.
pub open spec fn homing_contents<'a>(contents: AstNodeContents<'a>, home: bool) -> bool
    decreases contents, 0nat,
{
    match contents {
        AstNodeContents::Return(_) => home,
        AstNodeContents::FunctionBlock(f) => homing_block(f.block, false),
        AstNodeContents::LoopBlock(l) => homing_block(l.block, home),
        AstNodeContents::DecisionBlock(d) => homing_block(d.block, home) && match d.else_node {
            Some(e) => homing_node(*e, home),
            None => true,
        },
        AstNodeContents::TryBlock(t) => {
            &&& homing_block(t.block, home)
            &&& match t.finally {
                Some(f) => homing_block(f, home),
                None => true,
            }
            &&& forall|i: int| 0 <= i < t.catches@.len() ==> homing_block((#[trigger] t.catches@[i]).block, home)
        },
        AstNodeContents::Block(b) => homing_block(b, home),
        _ => true,
    }
}

/// Whether every `return` in a block stands where the exit of the method is
/// the exit in force.
pub open spec fn homing_block<'a>(block: Block<'a>, home: bool) -> bool
    decreases block, 0nat,
{
    forall|i: int| 0 <= i < block.statements@.len() ==> homing_node(#[trigger] block.statements@[i], home)
}

/// Whether a method is a function in which no `return` stands in a function
/// inside it.
pub open spec fn homing_method<'a>(method: AstNode<'a>) -> bool {
    method.contents is FunctionBlock && homing_block(method.contents->FunctionBlock_0.block, true)
}

/// Whether a method is a function that holds no function.
pub open spec fn flat_method<'a>(method: AstNode<'a>) -> bool {
    method.contents is FunctionBlock && flat_block(method.contents->FunctionBlock_0.block)
}

/// Whether every loop in a node goes back to a node of its own.
pub open spec fn steady_node<'a>(node: AstNode<'a>) -> bool
    decreases node, 1nat,
{
    steady_contents(node.contents)
}

/// Whether every loop in what a node holds goes back to a node of its own:
/// it has an update or a condition, or no `try` without an entry stands
/// last in its body.
pub open spec fn steady_contents<'a>(contents: AstNodeContents<'a>) -> bool
    decreases contents, 0nat,
{
    match contents {
        AstNodeContents::FunctionBlock(f) => steady_block(f.block),
        AstNodeContents::LoopBlock(l) => steady_block(l.block) && (l.update@.len() > 0 || has_unit(l.condition)
            || anchored_block(l.block)),
        AstNodeContents::DecisionBlock(d) => steady_block(d.block) && match d.else_node {
            Some(e) => steady_node(*e),
            None => true,
        },
        AstNodeContents::TryBlock(t) => {
            &&& steady_block(t.block)
            &&& match t.finally {
                Some(f) => steady_block(f),
                None => true,
            }
            &&& forall|i: int| 0 <= i < t.catches@.len() ==> steady_block((#[trigger] t.catches@[i]).block)
        },
        AstNodeContents::Block(b) => steady_block(b),
        _ => true,
    }
}

/// Whether every loop in a block goes back to a node of its own.
pub open spec fn steady_block<'a>(block: Block<'a>) -> bool
    decreases block, 0nat,
{
    forall|i: int| 0 <= i < block.statements@.len() ==> steady_node(#[trigger] block.statements@[i])
}

/// Whether a method is a function in which every loop goes back to a node
/// of its own.
pub open spec fn steady_method<'a>(method: AstNode<'a>) -> bool {
    method.contents is FunctionBlock && steady_block(method.contents->FunctionBlock_0.block)
}

} // verus!
