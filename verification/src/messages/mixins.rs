//! Parts that several kinds of syntax-tree node share.

use vstd::prelude::*;
use crate::messages::ast_node::AstNode;

verus! {

/// An ordered list of statements.
#[derive(Debug)]
pub struct Block<'a> {
    pub statements: Vec<AstNode<'a>>,
    pub breakable: bool,
    pub continuable: bool,
}

/// The text of one statement.
#[derive(Debug)]
pub struct Statement<'a> {
    pub code: &'a str,
}

} // verus!
