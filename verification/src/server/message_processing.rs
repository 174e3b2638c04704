//! Lowering the methods of a message.

use vstd::prelude::*;
use crate::cfg::errors::{MethodProcessingError, MethodProcessingErrorView};
use crate::cfg::graph::MethodGraph;
use crate::cfg::lowering::lower_method;
use crate::cfg::model::{shows, GraphModel};
use crate::cfg::process_method;
use crate::messages::ast_node::AstNode;
use crate::messages::message::Message;

verus! {

/// A graph as it is written to a file.
#[derive(Debug)]
pub struct ProcessedGraph {
    /// The name of the graph among the graphs of its program.
    pub graph_id: String,
    /// The bytes of the file.
    pub graph_contents: Vec<u8>,
}

/// The graphs of a program.
#[derive(Debug)]
pub struct ProcessedProgram {
    /// The name of the program in its group.
    pub program_id: String,
    /// The group that the program belongs to.
    pub program_group: String,
    /// The graphs of the program's methods.
    pub graphs: Vec<ProcessedGraph>,
}

/// The graphs of the methods at the positions `methods` in `nodes`, from
/// position `i` on; `done` holds the graphs made so far. A position that
/// names no tree is a failure, and so is a method that cannot be lowered;
/// the first failure ends the work.
pub open spec fn lower_methods<'a>(
    nodes: Seq<AstNode<'a>>,
    methods: Seq<u32>,
    i: int,
    done: Seq<GraphModel<'a>>,
) -> Result<Seq<GraphModel<'a>>, MethodProcessingErrorView>
    decreases methods.len() - i,
{
    if i < 0 || i >= methods.len() {
        Ok(done)
    } else if methods[i] >= nodes.len() {
        Err(MethodProcessingErrorView::MalformedAst)
    } else {
        match lower_method(nodes[methods[i] as int]) {
            Err(e) => Err(e),
            Ok(g) => lower_methods(nodes, methods, i + 1, done.push(g)),
        }
    }
}

/// Whether each of `graphs` shows the graph at its position in `models`.
pub open spec fn all_show<'a>(
    graphs: Seq<(Option<String>, MethodGraph<'a>)>,
    models: Seq<GraphModel<'a>>,
) -> bool {
    &&& graphs.len() == models.len()
    &&& forall|k: int| 0 <= k < graphs.len() ==> shows((#[trigger] graphs[k]).1, models[k])
}

/// Builds the control-flow graph of each method of a message, in the order
/// in which the message lists the methods, each with the method's name.
pub fn process_message<'a>(message: &Message<'a>) -> (r: Result<
    Vec<(Option<String>, MethodGraph<'a>)>,
    MethodProcessingError,
>)
    ensures
        match lower_methods(message.nodes@, message.methods@, 0, Seq::empty()) {
            Ok(graphs) => r is Ok && all_show(r->Ok_0@, graphs),
            Err(e) => r is Err && r->Err_0@ == e,
        },
{
    let mut graphs: Vec<(Option<String>, MethodGraph<'a>)> = Vec::new();
    let ghost mut models: Seq<GraphModel<'a>> = Seq::empty();
    let mut i: usize = 0;
    while i < message.methods.len()
        invariant
            i <= message.methods.len(),
            all_show(graphs@, models),
            lower_methods(message.nodes@, message.methods@, i as int, models) == lower_methods(
                message.nodes@,
                message.methods@,
                0,
                Seq::empty(),
            ),
        decreases message.methods.len() - i,
    {
        let position = message.methods[i] as usize;
        if position >= message.nodes.len() {
            return Err(MethodProcessingError::MalformedAst);
        }
        match process_method(&message.nodes[position]) {
            Err(e) => {
                return Err(e);
            },
            Ok(processed) => {
                proof {
                    models = models.push(lower_method(message.nodes@[position as int])->Ok_0);
                }
                graphs.push(processed);
            },
        }
        i += 1;
    }
    Ok(graphs)
}

} // verus!
