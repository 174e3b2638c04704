//! Building the control-flow graph of a method from its syntax tree.

pub mod ast_processor;
pub mod blocks;
pub mod cfg_node;
pub mod decisions;
pub mod errors;
pub mod graph;
pub mod invariants;
pub mod labels;
pub mod live;
pub mod laws;
pub mod lowering;
pub mod model;
pub mod shape;
pub mod trees;

use vstd::prelude::*;
use crate::cfg::ast_processor::AstProcessor;
use crate::cfg::errors::MethodProcessingError;
use crate::cfg::graph::MethodGraph;
use crate::cfg::invariants::{decisions_branch, returns_reach};
use crate::cfg::laws::{
    framed, method_sink, named_after, resolved, single_frame, sink_ends,
};
use crate::cfg::lowering::lower_method;
use crate::cfg::model::shows;
use crate::cfg::trees::{anchored_method, flat_method, homing_method, steady_method};
use crate::messages::ast_node::{AstNode, AstNodeContents};

verus! {

/// Builds the control-flow graph of a method and returns it with the
/// method's name. The root of the tree must be a function that has a name.
///
/// The graph holds no label placeholder and no label edge; its first two
/// nodes are the source and the sink of the method, and no edge enters a
/// source. For the kinds of trees that `trees` names, there is one source
/// and one sink, every `return` has a statement edge to the sink, every
/// decision has its two branches, and no edge leaves the sink.
pub fn process_method<'a>(method: &AstNode<'a>) -> (r: Result<
    (Option<String>, MethodGraph<'a>),
    MethodProcessingError,
>)
    ensures
        match lower_method(*method) {
            Ok(g) => r is Ok && shows(r->Ok_0.1, g) && g.wf() && r->Ok_0.0 is Some && r->Ok_0.0->0@
                == method.contents->FunctionBlock_0.name->0@,
            Err(e) => r is Err && r->Err_0@ == e,
        },
        r is Ok ==> resolved(lower_method(*method)->Ok_0) && framed(lower_method(*method)->Ok_0),
        r is Ok ==> named_after(lower_method(*method)->Ok_0, method.contents->FunctionBlock_0),
        r is Ok && flat_method(*method) ==> single_frame(lower_method(*method)->Ok_0),
        r is Ok && homing_method(*method) ==> returns_reach(lower_method(*method)->Ok_0, method_sink()),
        r is Ok && steady_method(*method) ==> decisions_branch(lower_method(*method)->Ok_0),
        r is Ok && anchored_method(*method) ==> sink_ends(lower_method(*method)->Ok_0),
{
    let name = match &method.contents {
        AstNodeContents::FunctionBlock(fb) => match fb.name {
            Some(name) => Some(name.to_owned()),
            None => None,
        },
        _ => {
            return Err(MethodProcessingError::NotAMethod);
        },
    };
    match AstProcessor::process_method(method) {
        Err(e) => Err(e),
        Ok(graph) => Ok((name, graph)),
    }
}

} // verus!
