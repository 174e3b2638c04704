//! The kinds of syntax-tree node.

use vstd::prelude::*;
use crate::messages::mixins::{Block, Statement};

verus! {

/// A boolean condition: one expression, or two conditions joined by a
/// short-circuiting connective, or nothing.
#[derive(Debug)]
pub enum Decision<'a> {
    And(Box<Decision<'a>>, Box<Decision<'a>>),
    Or(Box<Decision<'a>>, Box<Decision<'a>>),
    Unit(&'a str),
    Empty,
}

/// A function: its name, if it has one, and its body.
#[derive(Debug)]
pub struct FunctionBlock<'a> {
    pub name: Option<&'a str>,
    pub namespace: Vec<&'a str>,
    pub parameter: Vec<&'a str>,
    pub block: Block<'a>,
}

/// A loop: statements that run once before it, a condition, statements that
/// run after each round, and a body.
#[derive(Debug)]
pub struct LoopBlock<'a> {
    pub initialization: Vec<&'a str>,
    pub update: Vec<&'a str>,
    pub condition: Decision<'a>,
    /// Whether the condition is tested before the first run of the body.
    pub first_iteration_condition_check: bool,
    pub block: Block<'a>,
}

/// A branch: a condition, the body that runs when it holds, and what runs
/// when it does not.
#[derive(Debug)]
pub struct DecisionBlock<'a> {
    pub condition: Decision<'a>,
    pub block: Block<'a>,
    pub else_node: Option<Box<AstNode<'a>>>,
}

/// A handler: the exceptions that it catches, and its body.
#[derive(Debug)]
pub struct CatchBlock<'a> {
    pub exception_types: Vec<&'a str>,
    pub block: Block<'a>,
}

/// A `try`: its body, its handlers, and the block that runs at the end.
#[derive(Debug)]
pub struct TryBlock<'a> {
    pub block: Block<'a>,
    pub catches: Vec<CatchBlock<'a>>,
    pub finally: Option<Block<'a>>,
}

/// A `throw`: the exceptions that it may raise, and its text.
#[derive(Debug)]
pub struct ThrowStatement<'a> {
    pub exception: Vec<&'a str>,
    pub statement: Statement<'a>,
}

/// A plain statement.
#[derive(Debug)]
pub struct Stmt<'a> {
    pub statement: Statement<'a>,
}

/// A `yield`.
#[derive(Debug)]
pub struct YieldStatement<'a> {
    pub statement: Statement<'a>,
}

/// A `break`, with the label that it names, if any.
#[derive(Debug)]
pub struct Break<'a> {
    pub label: Option<&'a str>,
}

/// A `continue`, with the label that it names, if any.
#[derive(Debug)]
pub struct Continue<'a> {
    pub label: Option<&'a str>,
}

/// A `return`, with the expression that it returns, if any.
#[derive(Debug)]
pub struct Return<'a> {
    pub expression: Option<&'a str>,
}

/// A jump to a label.
#[derive(Debug)]
pub struct Goto<'a> {
    pub label: &'a str,
}

/// Whether control leaves the sequence of statements at a node.
#[derive(Copy, Clone, Debug, PartialEq, Eq, Structural)]
pub enum Exits {
    Yes,
    No,
}

/// What a node of the syntax tree holds.
#[derive(Debug)]
pub enum AstNodeContents<'a> {
    FunctionBlock(FunctionBlock<'a>),
    LoopBlock(LoopBlock<'a>),
    DecisionBlock(DecisionBlock<'a>),
    TryBlock(TryBlock<'a>),
    CatchBlock(CatchBlock<'a>),
    ThrowStatement(ThrowStatement<'a>),
    Statement(Stmt<'a>),
    YieldStatement(YieldStatement<'a>),
    Break(Break<'a>),
    Continue(Continue<'a>),
    Return(Return<'a>),
    Decision(Decision<'a>),
    Goto(Goto<'a>),
    Block(Block<'a>),
}

/// A node of the syntax tree: what it is, the label it carries if any, and
/// whether an unlabelled `break` below it leaves it.
#[derive(Debug)]
pub struct AstNode<'a> {
    pub label: Option<&'a str>,
    pub breakable: bool,
    pub contents: AstNodeContents<'a>,
}

impl<'a> AstNode<'a> {
    /// Whether control leaves the sequence of statements at this node: it is
    /// a throw, a yield, a break, a continue, a return, a branch or a loop.
    pub fn exits(&self) -> (r: Exits)
        ensures
            r == self.exits_spec(),
    {
        match self.contents {
            AstNodeContents::ThrowStatement(_)
            | AstNodeContents::YieldStatement(_)
            | AstNodeContents::Break(_)
            | AstNodeContents::Continue(_)
            | AstNodeContents::Return(_)
            | AstNodeContents::DecisionBlock(_)
            | AstNodeContents::LoopBlock(_) => Exits::Yes,
            _ => Exits::No,
        }
    }

    /// Whether control leaves the sequence of statements at this node.
    pub open spec fn exits_spec(&self) -> Exits {
        if self.contents is ThrowStatement || self.contents is YieldStatement
            || self.contents is Break || self.contents is Continue || self.contents is Return
            || self.contents is DecisionBlock || self.contents is LoopBlock {
            Exits::Yes
        } else {
            Exits::No
        }
    }
}

} // verus!
