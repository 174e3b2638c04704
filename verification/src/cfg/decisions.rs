//! Where the two branches of a condition lead.

use vstd::prelude::*;

verus! {

/// The nodes that a condition leads to when it holds and when it does not.
#[derive(Clone, Copy, Debug)]
pub struct DecisionTarget {
    pub true_target: u32,
    pub false_target: u32,
}

/// The two short-circuiting connectives.
#[derive(Clone, Copy, Debug, PartialEq, Eq, Structural)]
pub enum BinaryDecision {
    And,
    Or,
}

} // verus!
