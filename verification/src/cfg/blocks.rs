//! What lowering a block of statements yields.

use vstd::prelude::*;

verus! {

/// The nodes at which a lowered block begins and ends, if it has any.
#[derive(Clone, Copy, Debug)]
pub enum ProcessedBlock {
    /// The block made no node to enter at.
    Empty,
    /// The block is entered and left at one node.
    Statement(u32),
    /// The block is entered at `start_node`; `end_node` is the entry of its
    /// last statement.
    Boundaries { start_node: u32, end_node: u32 },
}

impl ProcessedBlock {
    /// The node at which the block is entered, if there is one.
    pub open spec fn start(self) -> Option<u32> {
        match self {
            ProcessedBlock::Empty => None,
            ProcessedBlock::Statement(stmt) => Some(stmt),
            ProcessedBlock::Boundaries { start_node, .. } => Some(start_node),
        }
    }
}

} // verus!
