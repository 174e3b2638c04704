//! The builder: it walks a method's syntax tree and builds the method's
//! control-flow graph in a graph container.

use vstd::prelude::*;
use vstd::string::StringSliceAdditionalSpecFns;
use std::collections::HashSet;
use crate::cfg::blocks::ProcessedBlock;
use crate::cfg::cfg_node::{ControlType, Direction, Edge, LabelEdge, Node, NodeType};
use crate::cfg::decisions::{BinaryDecision, DecisionTarget};
use crate::cfg::errors::{LabelProcessingError, MethodProcessingError, MethodProcessingErrorView};
use crate::cfg::graph::{
    graph_add_edge, graph_add_node, graph_edge_count, graph_edges, graph_free, graph_incoming,
    graph_new, graph_node_weight, graph_nodes, graph_outgoing, graph_remove_node, MethodGraph,
};
use crate::cfg::labels::{
    is_placeholder, remove_label, remove_labels, resolve_from, resolve_labels, resolve_node,
    resolve_successors, successors, sweep_labels, Walk,
};
use crate::cfg::lowering::{
    add_and_link, add_statement_nodes, base_context, catch_entries, collapse, control_node,
    decision_node, exception_node, exits_of, finish_loop, first_target, label_node, link_chain,
    link_statements, lookup, loop_init_target, loop_true_target, loop_update_target, lower_block,
    lower_catches, lower_condition, lower_contents, lower_decision_block, lower_else,
    lower_function, lower_jump, lower_loop, lower_loop_condition, lower_method, lower_node,
    lower_return, lower_statements, lower_throw, lower_try, lower_try_body, sink_node,
    source_node, statement_node, throw_target, yield_error, condition_height, ContextModel,
    LoopParts, ProcessedNode,
};
use crate::cfg::invariants::{decisions_branch, returns_reach};
use crate::cfg::laws::{
    framed, function_graph, lemma_function_shape, lemma_method_shape, method_sink, named_after,
    resolved, shaped, single_frame, sink_ends,
};
use crate::cfg::live::{
    is_live, lemma_live_edges_all, lemma_live_edges_grow, lemma_live_edges_members,
    lemma_live_edges_push, lemma_live_edges_retire, lemma_live_from, lemma_live_into, live_edges,
    live_nodes, live_pairs, out_below,
};
use crate::cfg::model::{accords, accords_view, capacity_error, shows, GraphModel};
use crate::cfg::trees::{anchored_method, flat_method, homing_method, steady_method};
use crate::messages::ast_node::{
    AstNode, AstNodeContents, Break, Continue, Decision, DecisionBlock, Exits, FunctionBlock,
    LoopBlock, Return, Stmt, ThrowStatement, TryBlock, YieldStatement,
};
use crate::messages::mixins::Block;

verus! {

/// What the lowering carries down the tree. A context is copied for each
/// subtree, with the fields changed that the subtree sees otherwise.
#[derive(Copy, Clone, Debug)]
pub struct ProcessorContext<'b, 'a> {
    pub label: Option<u32>,
    pub most_recent_node: Option<u32>,
    pub nearest_breakable_node: Option<u32>,
    pub nearest_continuable_node: Option<u32>,
    pub sink_node: Option<u32>,
    pub exception_nodes: &'b Vec<(&'a str, u32)>,
}

impl<'b, 'a> View for ProcessorContext<'b, 'a> {
    type V = ContextModel<'a>;

    open spec fn view(&self) -> ContextModel<'a> {
        ContextModel {
            label: self.label,
            most_recent_node: self.most_recent_node,
            nearest_breakable_node: self.nearest_breakable_node,
            nearest_continuable_node: self.nearest_continuable_node,
            sink_node: self.sink_node,
            exception_nodes: self.exception_nodes@,
        }
    }
}

/// The builder, which owns the graph while it is built.
///
/// A node that is taken out of the graph stays in the container until the
/// graph is handed over, and is only marked as taken out. So the container
/// never gives the index of such a node to a node that is made later.
pub struct AstProcessor<'a> {
    pub method_graph: MethodGraph<'a>,
    /// For each index that was made, whether its node was taken out.
    pub taken_out: Vec<bool>,
}

impl<'a> View for AstProcessor<'a> {
    type V = GraphModel<'a>;

    /// The graph that is being built: what the container holds, without the
    /// nodes that were taken out and the edges at them.
    open spec fn view(&self) -> GraphModel<'a> {
        GraphModel {
            nodes: live_nodes(graph_nodes(self.method_graph), self.taken_out@),
            made: self.taken_out@.len(),
            edges: live_edges(graph_edges(self.method_graph), self.taken_out@),
            added: graph_edges(self.method_graph).len(),
        }
    }
}

impl<'a> AstProcessor<'a> {
    /// What holds of the builder at every step: no node has left the
    /// container; the container holds a node at each index that was made, and
    /// at no other; and every edge joins two such indices.
    pub open spec fn wf(&self) -> bool {
        &&& graph_free(self.method_graph).len() == 0
        &&& graph_nodes(self.method_graph).dom().finite()
        &&& graph_nodes(self.method_graph).dom().len() == self.taken_out@.len()
        &&& self.taken_out@.len() <= u32::MAX
        &&& forall|a: u32| #[trigger]
            graph_nodes(self.method_graph).dom().contains(a) <==> a < self.taken_out@.len()
        &&& forall|k: int|
            0 <= k < graph_edges(self.method_graph).len() ==> (#[trigger] graph_edges(
                self.method_graph,
            )[k]).0 < self.taken_out@.len() && graph_edges(self.method_graph)[k].1
                < self.taken_out@.len()
    }

    /// The graph that a well-formed builder builds is well formed.
    pub proof fn lemma_view_wf(&self)
        requires
            self.wf(),
        ensures
            self@.wf(),
    {
        let g = self@;
        let all = graph_nodes(self.method_graph).dom();
        assert(g.nodes.dom().subset_of(all));
        vstd::set_lib::lemma_len_subset(g.nodes.dom(), all);
        lemma_live_edges_members(graph_edges(self.method_graph), self.taken_out@);
        assert forall|k: int| 0 <= k < g.edges.len() implies g.nodes.dom().contains(
            (#[trigger] g.edges[k]).0,
        ) && g.nodes.dom().contains(g.edges[k].1) by {
            assert(is_live(self.taken_out@, g.edges[k].0));
            assert(all.contains(g.edges[k].0));
            assert(all.contains(g.edges[k].1));
        }
    }

    /// Whether `a` is the index of a node that was not taken out.
    fn is_node(&self, a: u32) -> (r: bool)
        requires
            self.wf(),
        ensures
            r == self@.has_node(a),
    {
        (a as usize) < self.taken_out.len() && !self.taken_out[a as usize]
    }
}

/// Whether two texts are the same.
fn str_eq(a: &str, b: &str) -> (r: bool)
    ensures
        r == (a@ == b@),
{
    let x = a.as_bytes();
    let y = b.as_bytes();
    proof {
        vstd::utf8::encode_utf8_decode_utf8(a@);
        vstd::utf8::encode_utf8_decode_utf8(b@);
    }
    if x.len() != y.len() {
        return false;
    }
    let mut i: usize = 0;
    while i < x.len()
        invariant
            i <= x.len(),
            x.len() == y.len(),
            x@ == a.spec_bytes(),
            y@ == b.spec_bytes(),
            forall|k: int| 0 <= k < i ==> x@[k] == y@[k],
        decreases x.len() - i,
    {
        if x[i] != y[i] {
            return false;
        }
        i += 1;
    }
    assert(x@ =~= y@);
    true
}

/// The node that the last entry for `key` in `table` names.
fn lookup_node(table: &Vec<(&str, u32)>, key: &str) -> (r: Option<u32>)
    ensures
        r == lookup(table@, key@),
{
    let mut i: usize = table.len();
    assert(table@.subrange(0, i as int) =~= table@);
    while i > 0
        invariant
            i <= table.len(),
            lookup(table@, key@) == lookup(table@.subrange(0, i as int), key@),
        decreases i,
    {
        let entry = table[i - 1];
        let ghost prefix = table@.subrange(0, i as int);
        assert(prefix.last() == table@[i - 1]);
        assert(prefix.drop_last() =~= table@.subrange(0, i - 1));
        if str_eq(entry.0, key) {
            return Some(entry.1);
        }
        i -= 1;
    }
    assert(table@.subrange(0, 0).len() == 0);
    None
}

/// The target of the first of `edges` whose payload is `wanted`.
fn find_target<'a>(edges: &Vec<(u32, Edge<'a>)>, wanted: LabelEdge) -> (r: Option<u32>)
    ensures
        r == first_target(edges@, Edge::Label(wanted), 0),
{
    let mut i: usize = 0;
    while i < edges.len()
        invariant
            i <= edges.len(),
            first_target(edges@, Edge::Label(wanted), 0) == first_target(edges@, Edge::Label(wanted), i as int),
        decreases edges.len() - i,
    {
        let hit = match wanted {
            LabelEdge::Break => edges[i].1.is_break(),
            LabelEdge::Continue => edges[i].1.is_continue(),
            LabelEdge::Next => edges[i].1.is_label_next(),
        };
        if hit {
            return Some(edges[i].0);
        }
        i += 1;
    }
    None
}

/// The failure that is reported when the graph cannot grow any more.
fn capacity_failure() -> (r: MethodProcessingError)
    ensures
        r@ == capacity_error(),
{
    MethodProcessingError::NotSupported("The graph has as many nodes or edges as it can hold".to_owned())
}

impl<'a> AstProcessor<'a> {
    /// The node at which a lowered block is entered, if there is one.
    fn start_of_block(block: ProcessedBlock) -> (r: Option<u32>)
        ensures
            r == block.start(),
    {
        match block {
            ProcessedBlock::Empty => None,
            ProcessedBlock::Statement(stmt) => Some(stmt),
            ProcessedBlock::Boundaries { start_node, .. } => Some(start_node),
        }
    }

    /// Whether control leaves the sequence of statements at `node`.
    fn exits(node: &AstNode<'a>) -> (r: Exits)
        ensures
            r == exits_of(*node),
    {
        node.exits()
    }

    /// Adds a node, unless the graph is full.
    fn add_node(&mut self, node: Node<'a>) -> (r: Result<u32, MethodProcessingError>)
        requires
            old(self).wf(),
        ensures
            accords(r, final(self)@, old(self)@.try_add_node(node)),
            r is Ok ==> final(self).wf(),
    {
        if self.taken_out.len() >= u32::MAX as usize {
            return Err(capacity_failure());
        }
        let n = graph_add_node(&mut self.method_graph, node);
        self.taken_out.push(false);
        proof {
            let before = old(self).taken_out@;
            let now = self.taken_out@;
            assert(n == before.len());
            lemma_live_edges_grow(graph_edges(old(self).method_graph), before);
            assert(self@.nodes =~= old(self)@.nodes.insert(n, node));
            assert forall|a: u32| #[trigger]
                graph_nodes(self.method_graph).dom().contains(a) <==> a < now.len() by {
                if a != n {
                    assert(graph_nodes(old(self).method_graph).dom().contains(a) <==> a < before.len());
                }
            }
        }
        Ok(n)
    }

    /// Adds an edge, unless an end of it is no node of the graph or the
    /// graph is full.
    fn add_edge(&mut self, start: u32, end: u32, weight: Edge<'a>) -> (r: Result<(), MethodProcessingError>)
        requires
            old(self).wf(),
        ensures
            accords(r, final(self)@, old(self)@.try_add_edge(start, end, weight)),
            r is Ok ==> final(self).wf(),
            final(self).taken_out@ == old(self).taken_out@,
    {
        if !self.is_node(start) || !self.is_node(end) {
            return Err(MethodProcessingError::MalformedAst);
        }
        if graph_edge_count(&self.method_graph) >= u32::MAX as usize {
            return Err(capacity_failure());
        }
        graph_add_edge(&mut self.method_graph, start, end, weight);
        proof {
            lemma_live_edges_push(
                graph_edges(old(self).method_graph),
                (start, end, weight),
                self.taken_out@,
            );
            assert forall|k: int|
                0 <= k < graph_edges(self.method_graph).len() implies (#[trigger] graph_edges(
                self.method_graph,
            )[k]).0 < self.taken_out@.len() && graph_edges(self.method_graph)[k].1
                < self.taken_out@.len() by {
                if k < graph_edges(old(self).method_graph).len() {
                    assert(graph_edges(self.method_graph)[k] == graph_edges(old(self).method_graph)[k]);
                }
            }
        }
        Ok(())
    }

    /// Takes a node and the edges at it out of the graph.
    fn remove_node(&mut self, node: u32)
        requires
            old(self).wf(),
        ensures
            final(self)@ == old(self)@.remove_node(node),
            final(self).wf(),
            final(self).taken_out@.len() == old(self).taken_out@.len(),
    {
        if self.is_node(node) {
            self.taken_out.set(node as usize, true);
            proof {
                lemma_live_edges_retire(graph_edges(self.method_graph), old(self).taken_out@, node);
                assert(self@.nodes =~= old(self)@.nodes.remove(node));
            }
        }
    }

    /// The payload of a node of the graph.
    fn node_weight(&self, node: u32) -> (r: Option<Node<'a>>)
        requires
            self.wf(),
        ensures
            r == if self@.has_node(node) {
                Some(self@.nodes[node])
            } else {
                None::<Node<'a>>
            },
    {
        if self.is_node(node) {
            graph_node_weight(&self.method_graph, node)
        } else {
            None
        }
    }

    /// Of `pairs`, those whose node was not taken out.
    fn keep_nodes(&self, pairs: Vec<(u32, Edge<'a>)>) -> (r: Vec<(u32, Edge<'a>)>)
        ensures
            r@ == live_pairs(pairs@, self.taken_out@, 0),
    {
        let mut kept: Vec<(u32, Edge<'a>)> = Vec::new();
        let mut i: usize = 0;
        while i < pairs.len()
            invariant
                i <= pairs.len(),
                kept@ + live_pairs(pairs@, self.taken_out@, i as int) == live_pairs(
                    pairs@,
                    self.taken_out@,
                    0,
                ),
            decreases pairs.len() - i,
        {
            let ghost before = kept@;
            let ghost rest = live_pairs(pairs@, self.taken_out@, i + 1);
            let (n, w) = pairs[i];
            if (n as usize) < self.taken_out.len() && !self.taken_out[n as usize] {
                kept.push((n, w));
                assert(before + (seq![pairs@[i as int]] + rest) =~= before.push(pairs@[i as int]) + rest);
            }
            i += 1;
        }
        assert(kept@ + Seq::<(u32, Edge<'a>)>::empty() =~= kept@);
        kept
    }

    /// The edges that enter `node`, as (source, payload), the one added last
    /// first.
    fn get_incoming_edges(&self, node: u32) -> (r: Vec<(u32, Edge<'a>)>)
        requires
            self.wf(),
        ensures
            r@ == self@.incoming(node),
    {
        if self.is_node(node) {
            proof {
                lemma_live_into(graph_edges(self.method_graph), self.taken_out@, node);
            }
            self.keep_nodes(graph_incoming(&self.method_graph, node))
        } else {
            Vec::new()
        }
    }

    /// The edges that leave `node`, as (target, payload), the one added last
    /// first.
    fn get_outgoing_edges(&self, node: u32) -> (r: Vec<(u32, Edge<'a>)>)
        requires
            self.wf(),
        ensures
            r@ == self@.outgoing(node),
    {
        if self.is_node(node) {
            proof {
                lemma_live_from(graph_edges(self.method_graph), self.taken_out@, node);
            }
            self.keep_nodes(graph_outgoing(&self.method_graph, node))
        } else {
            Vec::new()
        }
    }

    /// The targets of the edges that leave `node`, the edge added last first.
    fn get_successors(&self, node: u32) -> (r: Vec<u32>)
        requires
            self.wf(),
        ensures
            r@ == successors(self@, node),
    {
        let edges = self.get_outgoing_edges(node);
        let mut targets: Vec<u32> = Vec::new();
        let mut i: usize = 0;
        while i < edges.len()
            invariant
                i <= edges.len(),
                targets@ == edges@.subrange(0, i as int).map_values(|e: (u32, Edge<'a>)| e.0),
            decreases edges.len() - i,
        {
            targets.push(edges[i].0);
            assert(targets@ =~= edges@.subrange(0, i + 1).map_values(|e: (u32, Edge<'a>)| e.0));
            i += 1;
        }
        assert(edges@.subrange(0, i as int) =~= edges@);
        targets
    }

    /// Hands the graph over: the nodes that were taken out leave the
    /// container, and the edges at them with them.
    fn into_graph(self) -> (r: MethodGraph<'a>)
        requires
            self.wf(),
        ensures
            shows(r, self@),
    {
        let mut graph = self.method_graph;
        let taken_out = self.taken_out;
        let ghost nodes = graph_nodes(graph);
        let ghost edges = graph_edges(graph);
        let mut i: usize = 0;
        assert(live_nodes(nodes, out_below(taken_out@, 0)) =~= nodes);
        proof {
            lemma_live_edges_all(edges, taken_out@);
        }
        while i < taken_out.len()
            invariant
                i <= taken_out.len(),
                taken_out@.len() <= u32::MAX,
                forall|a: u32| #[trigger] nodes.dom().contains(a) <==> a < taken_out@.len(),
                graph_nodes(graph) == live_nodes(nodes, out_below(taken_out@, i as int)),
                graph_edges(graph) == live_edges(edges, out_below(taken_out@, i as int)),
            decreases taken_out.len() - i,
        {
            let ghost before = out_below(taken_out@, i as int);
            let ghost after = out_below(taken_out@, i + 1);
            if taken_out[i] {
                assert(graph_nodes(graph).dom().contains(i as u32));
                graph_remove_node(&mut graph, i as u32);
                proof {
                    lemma_live_edges_retire(edges, before, i as u32);
                    assert(after =~= before.update(i as int, true));
                    assert(graph_nodes(graph) =~= live_nodes(nodes, after));
                }
            } else {
                assert(after =~= before);
            }
            i += 1;
        }
        assert(out_below(taken_out@, taken_out@.len() as int) =~= taken_out@);
        graph
    }

    /// Gives `target` a copy of each of the edges `sources`, which entered
    /// another node.
    fn redirect_edges(&mut self, sources: &Vec<(u32, Edge<'a>)>, target: u32) -> (r: Result<
        (),
        MethodProcessingError,
    >)
        requires
            old(self).wf(),
        ensures
            accords(r, final(self)@, old(self)@.redirect_from(sources@, 0, target)),
            r is Ok ==> final(self).wf(),
            final(self).taken_out@ == old(self).taken_out@,
    {
        let mut i: usize = 0;
        while i < sources.len()
            invariant
                i <= sources.len(),
                self.wf(),
                self.taken_out@ == old(self).taken_out@,
                self@.redirect_from(sources@, i as int, target) == old(self)@.redirect_from(
                    sources@,
                    0,
                    target,
                ),
            decreases sources.len() - i,
        {
            match self.add_edge(sources[i].0, target, sources[i].1) {
                Err(e) => {
                    return Err(e);
                },
                Ok(_) => {},
            }
            i += 1;
        }
        Ok(())
    }

    /// Gives `target` a copy of each edge that enters `placeholder`, and
    /// removes `placeholder`.
    fn collapse_node(&mut self, placeholder: u32, target: Option<u32>) -> (r: Result<
        (),
        MethodProcessingError,
    >)
        requires
            old(self).wf(),
        ensures
            accords(r, final(self)@, collapse(old(self)@, placeholder, target)),
            r is Ok ==> final(self).wf(),
            final(self).taken_out@.len() == old(self).taken_out@.len(),
    {
        let edges = self.get_incoming_edges(placeholder);
        if edges.len() > 0 {
            match target {
                None => {
                    return Err(MethodProcessingError::MalformedAst);
                },
                Some(t) => {
                    match self.redirect_edges(&edges, t) {
                        Err(e) => {
                            return Err(e);
                        },
                        Ok(_) => {},
                    }
                },
            }
        }
        self.remove_node(placeholder);
        Ok(())
    }

    /// Adds a decision node that carries the expression `decision`.
    fn add_decision_node(&mut self, decision: &'a str) -> (r: Result<u32, MethodProcessingError>)
        requires
            old(self).wf(),
        ensures
            accords(r, final(self)@, old(self)@.try_add_node(decision_node(decision))),
            r is Ok ==> final(self).wf(),
    {
        self.add_node(Node { label: None, node_type: NodeType::Decision { decision } })
    }

    /// Adds a statement node that carries the text `stmt`.
    fn add_statement_node(&mut self, stmt: &'a str) -> (r: Result<u32, MethodProcessingError>)
        requires
            old(self).wf(),
        ensures
            accords(r, final(self)@, old(self)@.try_add_node(statement_node(stmt))),
            r is Ok ==> final(self).wf(),
    {
        self.add_node(Node { label: None, node_type: NodeType::Statement { statement: stmt } })
    }

    /// Adds an exception node that carries the text `stmt`.
    fn add_exception_node(&mut self, stmt: &'a str) -> (r: Result<u32, MethodProcessingError>)
        requires
            old(self).wf(),
        ensures
            accords(r, final(self)@, old(self)@.try_add_node(exception_node(stmt))),
            r is Ok ==> final(self).wf(),
    {
        self.add_node(Node { label: None, node_type: NodeType::Exception { statement: stmt } })
    }

    /// Adds a control node of the kind `node_type` that carries `label`.
    fn add_control_node(&mut self, label: Option<&'a str>, node_type: ControlType) -> (r: Result<
        u32,
        MethodProcessingError,
    >)
        requires
            old(self).wf(),
        ensures
            accords(r, final(self)@, old(self)@.try_add_node(control_node(label, node_type))),
            r is Ok ==> final(self).wf(),
    {
        self.add_node(Node { label, node_type: NodeType::ControlNode(node_type) })
    }

    /// Adds the edge that a decision takes in the direction `direction`.
    fn add_decision_edge(&mut self, start: u32, end: u32, direction: Direction) -> (r: Result<
        (),
        MethodProcessingError,
    >)
        requires
            old(self).wf(),
        ensures
            accords(r, final(self)@, old(self)@.try_add_edge(start, end, Edge::Decision(direction))),
            r is Ok ==> final(self).wf(),
    {
        self.add_edge(start, end, Edge::Decision(direction))
    }

    /// Adds a statement edge.
    fn add_statement_edge(&mut self, start: u32, end: u32) -> (r: Result<(), MethodProcessingError>)
        requires
            old(self).wf(),
        ensures
            accords(r, final(self)@, old(self)@.try_add_edge(start, end, Edge::Statement)),
            r is Ok ==> final(self).wf(),
    {
        self.add_edge(start, end, Edge::Statement)
    }

    /// Adds an exception edge that carries `exception_type`.
    fn add_exception_edge(&mut self, start: u32, end: u32, exception_type: &'a str) -> (r: Result<
        (),
        MethodProcessingError,
    >)
        requires
            old(self).wf(),
        ensures
            accords(
                r,
                final(self)@,
                old(self)@.try_add_edge(start, end, (Edge::Exception { exception: exception_type })),
            ),
            r is Ok ==> final(self).wf(),
    {
        self.add_edge(start, end, Edge::Exception { exception: exception_type })
    }

    /// Adds a statement node for each of `statements` and links each to the
    /// next.
    fn add_and_link_statement_nodes(&mut self, statements: &Vec<&'a str>) -> (r: Result<
        Vec<u32>,
        MethodProcessingError,
    >)
        requires
            old(self).wf(),
        ensures
            accords_view(r, final(self)@, add_and_link(old(self)@, statements@)),
            r is Ok ==> final(self).wf(),
    {
        let mut nodes: Vec<u32> = Vec::new();
        let mut i: usize = 0;
        while i < statements.len()
            invariant
                i <= statements.len(),
                self.wf(),
                add_statement_nodes(self@, statements@, i as int, nodes@) == add_statement_nodes(
                    old(self)@,
                    statements@,
                    0,
                    Seq::empty(),
                ),
            decreases statements.len() - i,
        {
            match self.add_statement_node(statements[i]) {
                Err(e) => {
                    return Err(e);
                },
                Ok(n) => {
                    nodes.push(n);
                },
            }
            i += 1;
        }
        let ghost made = self@;
        let mut j: usize = 0;
        while j < nodes.len() && j + 1 < nodes.len()
            invariant
                self.wf(),
                add_statement_nodes(old(self)@, statements@, 0, Seq::empty()) == Ok::<
                    (GraphModel, Seq<u32>),
                    MethodProcessingErrorView,
                >((made, nodes@)),
                link_chain(self@, nodes@, j as int) == link_chain(made, nodes@, 0),
            decreases nodes.len() - j,
        {
            match self.add_statement_edge(nodes[j], nodes[j + 1]) {
                Err(e) => {
                    return Err(e);
                },
                Ok(_) => {},
            }
            j += 1;
        }
        Ok(nodes)
    }

    /// Adds the chain of statement nodes for the initialization or the
    /// update of a loop.
    fn add_loop_statements(&mut self, statements: &Vec<&'a str>) -> (r: Result<
        Vec<u32>,
        MethodProcessingError,
    >)
        requires
            old(self).wf(),
        ensures
            accords_view(r, final(self)@, add_and_link(old(self)@, statements@)),
            r is Ok ==> final(self).wf(),
    {
        self.add_and_link_statement_nodes(statements)
    }

    /// Where the update of a loop leads: the condition, else the body, else
    /// the update itself.
    fn get_loop_update_target(block_nodes: ProcessedBlock, decision_nodes: &Vec<u32>, first: u32) -> (r: u32)
        ensures
            r == loop_update_target(block_nodes, decision_nodes@, first),
    {
        if decision_nodes.len() > 0 {
            decision_nodes[0]
        } else {
            match Self::start_of_block(block_nodes) {
                Some(start) => start,
                None => first,
            }
        }
    }

    /// Where the initialization of a loop leads: the condition, else the
    /// body, else the update, else what follows the loop.
    fn get_loop_init_target(
        update_nodes: &Vec<u32>,
        next_node: u32,
        block_nodes: ProcessedBlock,
        decision_nodes: &Vec<u32>,
    ) -> (r: u32)
        ensures
            r == loop_init_target(update_nodes@, next_node, block_nodes, decision_nodes@),
    {
        if decision_nodes.len() > 0 {
            decision_nodes[0]
        } else {
            match Self::start_of_block(block_nodes) {
                Some(start) => start,
                None => if update_nodes.len() > 0 {
                    update_nodes[0]
                } else {
                    next_node
                },
            }
        }
    }

    /// Where the condition of a loop leads when it holds: the body, else the
    /// update, else a placeholder that is made here. The flag says whether
    /// the placeholder was made.
    fn get_loop_decision_true_target(&mut self, update_nodes: &Vec<u32>, block_nodes: ProcessedBlock) -> (r:
        Result<(u32, bool), MethodProcessingError>)
        requires
            old(self).wf(),
        ensures
            accords(r, final(self)@, loop_true_target(old(self)@, update_nodes@, block_nodes)),
            r is Ok ==> final(self).wf(),
    {
        match Self::start_of_block(block_nodes) {
            Some(start) => Ok((start, false)),
            None => if update_nodes.len() > 0 {
                Ok((update_nodes[0], false))
            } else {
                match self.add_node(
                    Node {
                        label: None,
                        node_type: NodeType::Sink { name: Some("Decision True Target Dummy Node") },
                    },
                ) {
                    Err(e) => Err(e),
                    Ok(n) => Ok((n, true)),
                }
            },
        }
    }

    /// Lowers a connective: the right side against the targets of the whole,
    /// then the left side against the right side's entry and one of them.
    fn process_binary_condition(
        &mut self,
        left: &Decision<'a>,
        right: &Decision<'a>,
        decision_type: BinaryDecision,
        target: &DecisionTarget,
    ) -> (r: Result<Vec<u32>, MethodProcessingError>)
        requires
            old(self).wf(),
        ensures
            accords_view(
                r,
                final(self)@,
                match decision_type {
                    BinaryDecision::And => lower_condition(
                        old(self)@,
                        Decision::And(Box::new(*left), Box::new(*right)),
                        target.true_target,
                        target.false_target,
                    ),
                    BinaryDecision::Or => lower_condition(
                        old(self)@,
                        Decision::Or(Box::new(*left), Box::new(*right)),
                        target.true_target,
                        target.false_target,
                    ),
                },
            ),
            r is Ok ==> final(self).wf(),
        decreases
                1 + if condition_height(*left) > condition_height(*right) {
                    condition_height(*left)
                } else {
                    condition_height(*right)
                },
                0nat,
    {
        let mut right_nodes = match self.process_condition(right, target) {
            Err(e) => {
                return Err(e);
            },
            Ok(nodes) => nodes,
        };
        if right_nodes.len() == 0 {
            return Err(MethodProcessingError::MalformedAst);
        }
        let left_target = match decision_type {
            BinaryDecision::And => DecisionTarget {
                true_target: right_nodes[0],
                false_target: target.false_target,
            },
            BinaryDecision::Or => DecisionTarget {
                true_target: target.true_target,
                false_target: right_nodes[0],
            },
        };
        let mut left_nodes = match self.process_condition(left, &left_target) {
            Err(e) => {
                return Err(e);
            },
            Ok(nodes) => nodes,
        };
        left_nodes.append(&mut right_nodes);
        Ok(left_nodes)
    }

    /// Lowers a condition into decision nodes, the first of which is where
    /// the condition is entered.
    fn process_condition(&mut self, condition: &Decision<'a>, target: &DecisionTarget) -> (r: Result<
        Vec<u32>,
        MethodProcessingError,
    >)
        requires
            old(self).wf(),
        ensures
            accords_view(
                r,
                final(self)@,
                lower_condition(old(self)@, *condition, target.true_target, target.false_target),
            ),
            r is Ok ==> final(self).wf(),
        decreases condition_height(*condition), 1nat,
    {
        match condition {
            Decision::And(left, right) => self.process_binary_condition(
                left,
                right,
                BinaryDecision::And,
                target,
            ),
            Decision::Or(left, right) => self.process_binary_condition(
                left,
                right,
                BinaryDecision::Or,
                target,
            ),
            Decision::Unit(expr) => {
                let dec = match self.add_decision_node(expr) {
                    Err(e) => {
                        return Err(e);
                    },
                    Ok(n) => n,
                };
                match self.add_decision_edge(dec, target.true_target, Direction::True) {
                    Err(e) => {
                        return Err(e);
                    },
                    Ok(_) => {},
                }
                match self.add_decision_edge(dec, target.false_target, Direction::False) {
                    Err(e) => {
                        return Err(e);
                    },
                    Ok(_) => {},
                }
                let mut nodes = Vec::new();
                nodes.push(dec);
                assert(nodes@ =~= seq![dec]);
                Ok(nodes)
            },
            Decision::Empty => Ok(Vec::new()),
        }
    }
}

impl<'a> AstProcessor<'a> {
    /// Lowers a node of the syntax tree and returns its entry.
    fn process_node<'b>(&mut self, node_ctx: ProcessorContext<'b, 'a>, node: &AstNode<'a>) -> (r: Result<
        ProcessedNode,
        MethodProcessingError,
    >)
        requires
            old(self).wf(),
        ensures
            accords(r, final(self)@, lower_node(old(self)@, node_ctx@, *node)),
            r is Ok ==> final(self).wf(),
        decreases node, 0nat,
    {
        let dummy_break = match self.add_node(
            Node { label: None, node_type: NodeType::Sink { name: Some("Dummy If Break Node") } },
        ) {
            Err(e) => {
                return Err(e);
            },
            Ok(n) => n,
        };
        let label = match node.label {
            Some(l) => {
                if l.is_empty() {
                    return Err(
                        MethodProcessingError::LabelProcessing {
                            error: LabelProcessingError::EmptySomeLabel,
                        },
                    );
                }
                match self.add_node(Node { label: Some(l), node_type: NodeType::Label }) {
                    Err(e) => {
                        return Err(e);
                    },
                    Ok(n) => Some(n),
                }
            },
            None => None,
        };
        let breakable = node.breakable || match node.contents {
            AstNodeContents::LoopBlock(_) => true,
            _ => false,
        };
        let ctx = ProcessorContext {
            label,
            nearest_breakable_node: if breakable {
                Some(dummy_break)
            } else {
                node_ctx.nearest_breakable_node
            },
            ..node_ctx
        };
        let content = match &node.contents {
            AstNodeContents::FunctionBlock(f) => self.process_function(ctx, f),
            AstNodeContents::LoopBlock(l) => self.process_loop(ctx, l),
            AstNodeContents::DecisionBlock(d) => self.process_decision_block(ctx, d),
            AstNodeContents::TryBlock(t) => self.process_try(ctx, t),
            AstNodeContents::ThrowStatement(t) => self.process_throw(ctx, t),
            AstNodeContents::Statement(s) => self.process_statement(ctx, s),
            AstNodeContents::YieldStatement(y) => self.process_yield(ctx, y),
            AstNodeContents::Break(b) => self.process_break(ctx, b),
            AstNodeContents::Continue(c) => self.process_continue(ctx, c),
            AstNodeContents::Return(r) => self.process_return(ctx, r),
            AstNodeContents::Block(b) => match self.process_block(ctx, b) {
                Err(e) => Err(e),
                Ok(block) => match Self::start_of_block(block) {
                    Some(n) => Ok(ProcessedNode::Child(n)),
                    None => Ok(ProcessedNode::Root),
                },
            },
            _ => Err(
                MethodProcessingError::NotSupported(
                    "You have a node in your blocks that can only be unpacked in a specific type of node.".to_owned(),
                ),
            ),
        };
        let content = match content {
            Err(e) => {
                return Err(e);
            },
            Ok(c) => c,
        };
        let next_node = match node_ctx.most_recent_node {
            None => {
                return Err(MethodProcessingError::MalformedAst);
            },
            Some(n) => n,
        };
        let edges = self.get_incoming_edges(dummy_break);
        match self.redirect_edges(&edges, next_node) {
            Err(e) => {
                return Err(e);
            },
            Ok(_) => {},
        }
        self.remove_node(dummy_break);
        match (label, content) {
            (Some(label_node), ProcessedNode::Child(content_index)) => {
                match self.add_edge(label_node, content_index, Edge::Label(LabelEdge::Next)) {
                    Err(e) => {
                        return Err(e);
                    },
                    Ok(_) => {},
                }
                match self.add_edge(label_node, next_node, Edge::Label(LabelEdge::Break)) {
                    Err(e) => {
                        return Err(e);
                    },
                    Ok(_) => {},
                }
                Ok(ProcessedNode::Child(label_node))
            },
            _ => Ok(content),
        }
    }

    /// Lowers a block of statements, from the last to the first, and links
    /// them.
    fn process_block<'b>(&mut self, ctx: ProcessorContext<'b, 'a>, block: &Block<'a>) -> (r: Result<
        ProcessedBlock,
        MethodProcessingError,
    >)
        requires
            old(self).wf(),
        ensures
            accords(r, final(self)@, lower_block(old(self)@, ctx@, *block)),
            r is Ok ==> final(self).wf(),
        decreases block, 0nat,
    {
        let mut block_context = ctx;
        let mut nodes: Vec<(u32, Exits)> = Vec::new();
        let mut i: usize = block.statements.len();
        while i > 0
            invariant
                i <= block.statements.len(),
                self.wf(),
                lower_statements(self@, block_context@, block.statements@, i as int, nodes@)
                    == lower_statements(
                    old(self)@,
                    ctx@,
                    block.statements@,
                    block.statements@.len() as int,
                    Seq::empty(),
                ),
                block_context@.most_recent_node is None ==> ctx@.most_recent_node is None,
            decreases i,
        {
            let statement = &block.statements[i - 1];
            match self.process_node(block_context, statement) {
                Err(e) => {
                    return Err(e);
                },
                Ok(ProcessedNode::Child(n)) => {
                    block_context = ProcessorContext { most_recent_node: Some(n), ..block_context };
                    nodes.push((n, Self::exits(statement)));
                },
                Ok(ProcessedNode::Root) => {},
            }
            i -= 1;
        }
        let ghost lowered = self@;
        let mut j: usize = nodes.len();
        if j > 0 {
            j -= 1;
        }
        assert(j == nodes@.len() - 1 || (j == 0 && nodes@.len() == 0));
        while j > 0
            invariant
                j < nodes.len() || (nodes.len() == 0 && j == 0),
                self.wf(),
                lower_statements(
                    old(self)@,
                    ctx@,
                    block.statements@,
                    block.statements@.len() as int,
                    Seq::empty(),
                ) == Ok::<(GraphModel, Seq<(u32, Exits)>), MethodProcessingErrorView>((lowered, nodes@)),
                link_statements(self@, nodes@, j as int) == link_statements(
                    lowered,
                    nodes@,
                    nodes@.len() - 1,
                ),
            decreases j,
        {
            match nodes[j].1 {
                Exits::No => {
                    match self.add_statement_edge(nodes[j].0, nodes[j - 1].0) {
                        Err(e) => {
                            return Err(e);
                        },
                        Ok(_) => {},
                    }
                },
                Exits::Yes => {},
            }
            j -= 1;
        }
        let processed = if nodes.len() == 0 {
            ProcessedBlock::Empty
        } else if nodes.len() == 1 {
            ProcessedBlock::Statement(nodes[0].0)
        } else {
            ProcessedBlock::Boundaries { start_node: nodes[nodes.len() - 1].0, end_node: nodes[0].0 }
        };
        if nodes.len() > 0 {
            match (nodes[0].1, ctx.most_recent_node) {
                (Exits::No, Some(most_recent_node)) => {
                    match self.add_statement_edge(nodes[0].0, most_recent_node) {
                        Err(e) => {
                            return Err(e);
                        },
                        Ok(_) => {},
                    }
                },
                _ => {},
            }
        }
        Ok(processed)
    }

    /// Lowers a function: its source, its sink and its body, and resolves
    /// the labels in it.
    fn process_function<'b>(&mut self, ctx: ProcessorContext<'b, 'a>, function_block: &FunctionBlock<'a>) -> (r:
        Result<ProcessedNode, MethodProcessingError>)
        requires
            old(self).wf(),
        ensures
            accords(r, final(self)@, lower_function(old(self)@, ctx@, *function_block)),
            r is Ok ==> final(self).wf(),
            r is Ok && old(self)@ == GraphModel::empty() && ctx@ == base_context() ==> shaped(
                *function_block,
                final(self)@,
            ),
        decreases function_block, 0nat,
    {
        proof {
            if old(self)@ == GraphModel::empty() && ctx@ == base_context() && function_graph(*function_block) is Ok {
                lemma_function_shape(*function_block);
            }
        }
        let function_name = function_block.name;
        let function_source_node = match self.add_node(
            Node { label: None, node_type: NodeType::Source { name: function_name } },
        ) {
            Err(e) => {
                return Err(e);
            },
            Ok(n) => n,
        };
        let function_sink_node = match self.add_node(
            Node { label: None, node_type: NodeType::Sink { name: function_name } },
        ) {
            Err(e) => {
                return Err(e);
            },
            Ok(n) => n,
        };
        let block_ctx = ProcessorContext {
            sink_node: Some(function_sink_node),
            most_recent_node: Some(function_sink_node),
            ..ctx
        };
        let block = match self.process_block(block_ctx, &function_block.block) {
            Err(e) => {
                return Err(e);
            },
            Ok(b) => b,
        };
        match Self::start_of_block(block) {
            Some(start_node) => {
                match self.add_edge(function_source_node, start_node, Edge::Statement) {
                    Err(e) => {
                        return Err(e);
                    },
                    Ok(_) => {},
                }
            },
            None => {},
        }
        match self.process_labels(function_source_node) {
            Err(e) => {
                return Err(e);
            },
            Ok(_) => {},
        }
        Ok(ProcessedNode::Root)
    }

    /// Lowers a loop.
    fn process_loop<'b>(&mut self, ctx: ProcessorContext<'b, 'a>, loop_block: &LoopBlock<'a>) -> (r: Result<
        ProcessedNode,
        MethodProcessingError,
    >)
        requires
            old(self).wf(),
        ensures
            accords(r, final(self)@, lower_loop(old(self)@, ctx@, *loop_block)),
            r is Ok ==> final(self).wf(),
            !loop_block.first_iteration_condition_check && (loop_block.update@.len() > 0
                || loop_block.initialization@.len() > 0) ==> final(self)@ == old(self)@,
        decreases loop_block, 0nat,
    {
        if !loop_block.first_iteration_condition_check && (loop_block.update.len() > 0
            || loop_block.initialization.len() > 0) {
            return Err(MethodProcessingError::TriedToCreateDoForLoop);
        }
        let initialization_nodes = match self.add_loop_statements(&loop_block.initialization) {
            Err(e) => {
                return Err(e);
            },
            Ok(nodes) => nodes,
        };
        let update_nodes = match self.add_loop_statements(&loop_block.update) {
            Err(e) => {
                return Err(e);
            },
            Ok(nodes) => nodes,
        };
        let next_node = match ctx.most_recent_node {
            None => {
                return Err(MethodProcessingError::MalformedAst);
            },
            Some(n) => n,
        };
        let continue_node = match self.add_node(Node { label: None, node_type: NodeType::Sink { name: None } }) {
            Err(e) => {
                return Err(e);
            },
            Ok(n) => n,
        };
        let dummy_target = match self.add_node(
            Node { label: None, node_type: NodeType::Sink { name: Some("Dummy Target Sink") } },
        ) {
            Err(e) => {
                return Err(e);
            },
            Ok(n) => n,
        };
        let block_context = ProcessorContext {
            most_recent_node: Some(dummy_target),
            nearest_continuable_node: Some(continue_node),
            ..ctx
        };
        let block_nodes = match self.process_block(block_context, &loop_block.block) {
            Err(e) => {
                return Err(e);
            },
            Ok(b) => b,
        };
        let ghost parts = LoopParts {
            init: initialization_nodes@,
            update: update_nodes@,
            next_node,
            continue_node,
            dummy_target,
            block: block_nodes,
            first_check: loop_block.first_iteration_condition_check,
            label: ctx.label,
        };
        let ghost before_condition = self@;
        assert(lower_loop(old(self)@, ctx@, *loop_block) == lower_loop_condition(
            before_condition,
            parts,
            loop_block.condition,
        ));
        let (decision_true_target, made) = match self.get_loop_decision_true_target(
            &update_nodes,
            block_nodes,
        ) {
            Err(e) => {
                return Err(e);
            },
            Ok(t) => t,
        };
        let decision_nodes = match self.process_condition(
            &loop_block.condition,
            &DecisionTarget { true_target: decision_true_target, false_target: next_node },
        ) {
            Err(e) => {
                return Err(e);
            },
            Ok(nodes) => nodes,
        };
        let ghost after_condition = self@;
        assert(lower_loop(old(self)@, ctx@, *loop_block) == finish_loop(
            after_condition,
            parts,
            decision_true_target,
            made,
            decision_nodes@,
        ));
        // The placeholder that the condition led to gives way to the condition.
        match self.node_weight(decision_true_target) {
            None => {
                return Err(MethodProcessingError::MalformedAst);
            },
            Some(weight) => {
                let is_sink = match weight.node_type {
                    NodeType::Sink { .. } => true,
                    _ => false,
                };
                if is_sink && decision_nodes.len() > 0 {
                    let edges = self.get_incoming_edges(decision_true_target);
                    match self.redirect_edges(&edges, decision_nodes[0]) {
                        Err(e) => {
                            return Err(e);
                        },
                        Ok(_) => {},
                    }
                    self.remove_node(decision_true_target);
                } else if made {
                    self.remove_node(decision_true_target);
                }
            },
        }
        // The last initialization statement leads into the loop.
        if initialization_nodes.len() > 0 {
            let initialization_target = Self::get_loop_init_target(
                &update_nodes,
                next_node,
                block_nodes,
                &decision_nodes,
            );
            match self.add_statement_edge(
                initialization_nodes[initialization_nodes.len() - 1],
                initialization_target,
            ) {
                Err(e) => {
                    return Err(e);
                },
                Ok(_) => {},
            }
        }
        // The last update statement leads back.
        if update_nodes.len() > 0 {
            let update_target = Self::get_loop_update_target(block_nodes, &decision_nodes, update_nodes[0]);
            match self.add_statement_edge(update_nodes[update_nodes.len() - 1], update_target) {
                Err(e) => {
                    return Err(e);
                },
                Ok(_) => {},
            }
        }
        // The two placeholders give way to where the loop goes back to.
        let back_target = if update_nodes.len() > 0 {
            Some(update_nodes[0])
        } else if decision_nodes.len() > 0 {
            Some(decision_nodes[0])
        } else {
            Self::start_of_block(block_nodes)
        };
        match self.collapse_node(continue_node, back_target) {
            Err(e) => {
                return Err(e);
            },
            Ok(_) => {},
        }
        match self.collapse_node(dummy_target, back_target) {
            Err(e) => {
                return Err(e);
            },
            Ok(_) => {},
        }
        let loop_block_root = if initialization_nodes.len() > 0 {
            Some(initialization_nodes[0])
        } else if decision_nodes.len() > 0 && loop_block.first_iteration_condition_check {
            Some(decision_nodes[0])
        } else {
            match block_nodes {
                ProcessedBlock::Empty => if update_nodes.len() > 0 {
                    Some(update_nodes[0])
                } else {
                    None
                },
                _ => Self::start_of_block(block_nodes),
            }
        };
        let root = match loop_block_root {
            None => {
                if decision_nodes.len() == 0 {
                    return Ok(ProcessedNode::Root);
                } else {
                    return Err(MethodProcessingError::MalformedAst);
                }
            },
            Some(root) => root,
        };
        match ctx.label {
            Some(label) => {
                match back_target {
                    Some(ni) => {
                        match self.add_edge(label, ni, Edge::Label(LabelEdge::Continue)) {
                            Err(e) => {
                                return Err(e);
                            },
                            Ok(_) => {},
                        }
                    },
                    None => {},
                }
            },
            None => {},
        }
        Ok(ProcessedNode::Child(root))
    }

    /// Lowers the `else` of a branch and returns where the branch leads when
    /// its condition does not hold.
    fn process_else<'b>(&mut self, ctx: ProcessorContext<'b, 'a>, node: &AstNode<'a>, next_node: u32) -> (r:
        Result<u32, MethodProcessingError>)
        requires
            old(self).wf(),
        ensures
            accords(r, final(self)@, lower_else(old(self)@, ctx@, *node, next_node)),
            r is Ok ==> final(self).wf(),
        decreases node, 1nat,
    {
        match self.process_node(ctx, node) {
            Err(e) => Err(e),
            Ok(ProcessedNode::Root) => Ok(next_node),
            Ok(ProcessedNode::Child(n)) => {
                match Self::exits(node) {
                    Exits::No => {
                        match self.add_statement_edge(n, next_node) {
                            Err(e) => {
                                return Err(e);
                            },
                            Ok(_) => {},
                        }
                    },
                    Exits::Yes => {},
                }
                Ok(n)
            },
        }
    }

    /// Lowers a branch.
    fn process_decision_block<'b>(&mut self, ctx: ProcessorContext<'b, 'a>, decision_block: &DecisionBlock<'a>) -> (r:
        Result<ProcessedNode, MethodProcessingError>)
        requires
            old(self).wf(),
        ensures
            accords(r, final(self)@, lower_decision_block(old(self)@, ctx@, *decision_block)),
            r is Ok ==> final(self).wf(),
        decreases decision_block, 0nat,
    {
        let next_node = match ctx.most_recent_node {
            None => {
                return Err(MethodProcessingError::MalformedAst);
            },
            Some(n) => n,
        };
        let false_target = match &decision_block.else_node {
            Some(else_node) => match self.process_else(ctx, else_node, next_node) {
                Err(e) => {
                    return Err(e);
                },
                Ok(n) => n,
            },
            None => next_node,
        };
        let block_nodes = match self.process_block(ctx, &decision_block.block) {
            Err(e) => {
                return Err(e);
            },
            Ok(b) => b,
        };
        let true_target = match Self::start_of_block(block_nodes) {
            Some(block_start) => block_start,
            None => next_node,
        };
        let decision_nodes = match self.process_condition(
            &decision_block.condition,
            &DecisionTarget { true_target, false_target },
        ) {
            Err(e) => {
                return Err(e);
            },
            Ok(nodes) => nodes,
        };
        if decision_nodes.len() > 0 {
            Ok(ProcessedNode::Child(decision_nodes[0]))
        } else {
            match Self::start_of_block(block_nodes) {
                Some(ni) => Ok(ProcessedNode::Child(ni)),
                None => Ok(ProcessedNode::Root),
            }
        }
    }

    /// Lowers a `try` with its handlers and its `finally` block.
    fn process_try<'b>(&mut self, ctx: ProcessorContext<'b, 'a>, try_block: &TryBlock<'a>) -> (r: Result<
        ProcessedNode,
        MethodProcessingError,
    >)
        requires
            old(self).wf(),
        ensures
            accords(r, final(self)@, lower_try(old(self)@, ctx@, *try_block)),
            r is Ok ==> final(self).wf(),
        decreases try_block, 0nat,
    {
        let most_recent_node = match ctx.most_recent_node {
            None => {
                return Err(MethodProcessingError::MalformedAst);
            },
            Some(n) => n,
        };
        let finally_start = match &try_block.finally {
            Some(finally) => match self.process_block(ctx, finally) {
                Err(e) => {
                    return Err(e);
                },
                Ok(b) => Self::start_of_block(b),
            },
            None => None,
        };
        let next_node = match finally_start {
            Some(n) => n,
            None => most_recent_node,
        };
        let catch_ctx = ProcessorContext { most_recent_node: Some(next_node), ..ctx };
        let mut exception_types: Vec<(&'a str, u32)> = Vec::new();
        let mut j: usize = 0;
        while j < ctx.exception_nodes.len()
            invariant
                j <= ctx.exception_nodes.len(),
                exception_types@ == ctx.exception_nodes@.subrange(0, j as int),
            decreases ctx.exception_nodes.len() - j,
        {
            exception_types.push(ctx.exception_nodes[j]);
            assert(exception_types@ =~= ctx.exception_nodes@.subrange(0, j + 1));
            j += 1;
        }
        assert(exception_types@ =~= ctx.exception_nodes@);
        let ghost after_finally = self@;
        assert(lower_try(old(self)@, ctx@, *try_block) == lower_try_body(
            after_finally,
            ctx@,
            *try_block,
            next_node,
        ));
        let mut i: usize = try_block.catches.len();
        while i > 0
            invariant
                i <= try_block.catches.len(),
                self.wf(),
                catch_ctx@ == (ContextModel { most_recent_node: Some(next_node), ..ctx@ }),
                lower_try(old(self)@, ctx@, *try_block) == lower_try_body(
                    after_finally,
                    ctx@,
                    *try_block,
                    next_node,
                ),
                lower_catches(self@, catch_ctx@, try_block.catches@, i as int, next_node, exception_types@)
                    == lower_catches(
                    after_finally,
                    catch_ctx@,
                    try_block.catches@,
                    try_block.catches@.len() as int,
                    next_node,
                    ctx@.exception_nodes,
                ),
            decreases i,
        {
            let catch = &try_block.catches[i - 1];
            let catch_block = match self.process_block(catch_ctx, &catch.block) {
                Err(e) => {
                    return Err(e);
                },
                Ok(b) => b,
            };
            let handler = match Self::start_of_block(catch_block) {
                Some(ni) => ni,
                None => next_node,
            };
            let ghost table = exception_types@;
            let mut k: usize = 0;
            while k < catch.exception_types.len()
                invariant
                    k <= catch.exception_types.len(),
                    catch_entries(exception_types@, catch.exception_types@, k as int, handler)
                        == catch_entries(table, catch.exception_types@, 0, handler),
                decreases catch.exception_types.len() - k,
            {
                exception_types.push((catch.exception_types[k], handler));
                k += 1;
            }
            i -= 1;
        }
        let try_context = ProcessorContext { exception_nodes: &exception_types, ..catch_ctx };
        let block = match self.process_block(try_context, &try_block.block) {
            Err(e) => {
                return Err(e);
            },
            Ok(b) => b,
        };
        match Self::start_of_block(block) {
            Some(n) => Ok(ProcessedNode::Child(n)),
            None => Ok(ProcessedNode::Child(next_node)),
        }
    }

    /// Lowers a `throw`.
    fn process_throw<'b>(&mut self, ctx: ProcessorContext<'b, 'a>, throw_statement: &ThrowStatement<'a>) -> (r:
        Result<ProcessedNode, MethodProcessingError>)
        requires
            old(self).wf(),
        ensures
            accords(r, final(self)@, lower_throw(old(self)@, ctx@, *throw_statement)),
            r is Ok ==> final(self).wf(),
            throw_statement.exception@.len() == 0 ==> final(self)@ == old(self)@,
    {
        if throw_statement.exception.len() == 0 {
            return Err(
                MethodProcessingError::NotSupported(
                    "Throw statements must have at least one exception".to_owned(),
                ),
            );
        }
        let mut found: Option<(u32, &'a str)> = None;
        let mut i: usize = 0;
        while i < throw_statement.exception.len() && found.is_none()
            invariant
                i <= throw_statement.exception.len(),
                throw_statement.exception.len() > 0,
                match found {
                    Some(hit) => throw_target(ctx@, throw_statement.exception@, 0) == Some(hit),
                    None => throw_target(ctx@, throw_statement.exception@, 0) == throw_target(
                        ctx@,
                        throw_statement.exception@,
                        i as int,
                    ),
                },
            decreases throw_statement.exception.len() - i, found.is_none() as int,
        {
            let exception_type = throw_statement.exception[i];
            match lookup_node(ctx.exception_nodes, exception_type) {
                Some(n) => {
                    found = Some((n, exception_type));
                },
                None => {
                    i += 1;
                },
            }
        }
        let (target_node, conveying_exception) = match found {
            Some(hit) => hit,
            None => match ctx.sink_node {
                Some(sink) => (sink, throw_statement.exception[0]),
                None => {
                    return Err(MethodProcessingError::MalformedAst);
                },
            },
        };
        let source_node = match self.add_exception_node(throw_statement.statement.code) {
            Err(e) => {
                return Err(e);
            },
            Ok(n) => n,
        };
        match self.add_exception_edge(source_node, target_node, conveying_exception) {
            Err(e) => {
                return Err(e);
            },
            Ok(_) => {},
        }
        Ok(ProcessedNode::Child(source_node))
    }

    /// Lowers a plain statement.
    fn process_statement<'b>(&mut self, _ctx: ProcessorContext<'b, 'a>, statement: &Stmt<'a>) -> (r: Result<
        ProcessedNode,
        MethodProcessingError,
    >)
        requires
            old(self).wf(),
        ensures
            accords(
                r,
                final(self)@,
                lower_contents(old(self)@, _ctx@, AstNodeContents::Statement(*statement)),
            ),
            r is Ok ==> final(self).wf(),
    {
        match self.add_statement_node(statement.statement.code) {
            Err(e) => Err(e),
            Ok(n) => Ok(ProcessedNode::Child(n)),
        }
    }

    /// Refuses a `yield`, which is not implemented.
    fn process_yield<'b>(&mut self, _ctx: ProcessorContext<'b, 'a>, _yield_statement: &YieldStatement<'a>) -> (r:
        Result<ProcessedNode, MethodProcessingError>)
        ensures
            r is Err,
            r->Err_0@ == MethodProcessingErrorView::NotImplemented(yield_error()),
            final(self)@ == old(self)@,
    {
        Err(MethodProcessingError::NotImplemented("Yield".to_owned()))
    }

    /// Lowers a `break`.
    fn process_break<'b>(&mut self, ctx: ProcessorContext<'b, 'a>, break_statement: &Break<'a>) -> (r: Result<
        ProcessedNode,
        MethodProcessingError,
    >)
        requires
            old(self).wf(),
        ensures
            accords(
                r,
                final(self)@,
                lower_jump(old(self)@, break_statement.label, ControlType::Break, ctx.nearest_breakable_node),
            ),
            r is Ok ==> final(self).wf(),
    {
        let label = break_statement.label;
        let source = match self.add_control_node(label, ControlType::Break) {
            Err(e) => {
                return Err(e);
            },
            Ok(n) => n,
        };
        match (label, ctx.nearest_breakable_node) {
            (None, Some(target)) => {
                match self.add_statement_edge(source, target) {
                    Err(e) => {
                        return Err(e);
                    },
                    Ok(_) => {},
                }
                Ok(ProcessedNode::Child(source))
            },
            _ => Ok(ProcessedNode::Child(source)),
        }
    }

    /// Lowers a `continue`.
    fn process_continue<'b>(&mut self, ctx: ProcessorContext<'b, 'a>, continue_statement: &Continue<'a>) -> (r:
        Result<ProcessedNode, MethodProcessingError>)
        requires
            old(self).wf(),
        ensures
            accords(
                r,
                final(self)@,
                lower_jump(
                    old(self)@,
                    continue_statement.label,
                    ControlType::Continue,
                    ctx.nearest_continuable_node,
                ),
            ),
            r is Ok ==> final(self).wf(),
    {
        let label = continue_statement.label;
        let source = match self.add_control_node(label, ControlType::Continue) {
            Err(e) => {
                return Err(e);
            },
            Ok(n) => n,
        };
        match (label, ctx.nearest_continuable_node) {
            (None, Some(target)) => {
                match self.add_statement_edge(source, target) {
                    Err(e) => {
                        return Err(e);
                    },
                    Ok(_) => {},
                }
                Ok(ProcessedNode::Child(source))
            },
            _ => Ok(ProcessedNode::Child(source)),
        }
    }

    /// Lowers a `return`.
    fn process_return<'b>(&mut self, ctx: ProcessorContext<'b, 'a>, return_statement: &Return<'a>) -> (r: Result<
        ProcessedNode,
        MethodProcessingError,
    >)
        requires
            old(self).wf(),
        ensures
            accords(r, final(self)@, lower_return(old(self)@, ctx@, *return_statement)),
            r is Ok ==> final(self).wf(),
    {
        let expression = return_statement.expression;
        let source = match self.add_control_node(expression, ControlType::Return) {
            Err(e) => {
                return Err(e);
            },
            Ok(n) => n,
        };
        match ctx.sink_node {
            Some(target) => {
                match self.add_statement_edge(source, target) {
                    Err(e) => {
                        return Err(e);
                    },
                    Ok(_) => {},
                }
                Ok(ProcessedNode::Child(source))
            },
            None => Ok(ProcessedNode::Child(source)),
        }
    }

    /// Takes a label placeholder out of the graph: what it labels gets the
    /// edges that entered it.
    fn remove_label(&mut self, node: u32) -> (r: Result<(), MethodProcessingError>)
        requires
            old(self).wf(),
        ensures
            accords(r, final(self)@, remove_label(old(self)@, node)),
            r is Ok ==> final(self).wf(),
            final(self).taken_out@.len() == old(self).taken_out@.len(),
    {
        let outgoing = self.get_outgoing_edges(node);
        let target = find_target(&outgoing, LabelEdge::Next);
        match target {
            Some(t) => {
                if t == node {
                    return Err(MethodProcessingError::MalformedAst);
                }
            },
            None => {},
        }
        self.collapse_node(node, target)
    }

    /// Whether `node` is a label placeholder of the graph.
    fn is_placeholder(&self, node: u32) -> (r: bool)
        requires
            self.wf(),
        ensures
            r == is_placeholder(self@, node),
    {
        match self.node_weight(node) {
            Some(weight) => match weight.node_type {
                NodeType::Label => true,
                _ => false,
            },
            None => false,
        }
    }

    /// Resolves the labels of the function whose source is `start_node`,
    /// and takes every label placeholder of the function out of the graph.
    fn process_labels(&mut self, start_node: u32) -> (r: Result<(), MethodProcessingError>)
        requires
            old(self).wf(),
        ensures
            accords(r, final(self)@, resolve_labels(old(self)@, start_node)),
            r is Ok ==> final(self).wf(),
    {
        let mut visited: HashSet<u32> = HashSet::new();
        let mut found: Vec<u32> = Vec::new();
        let labels: Vec<(&'a str, u32)> = Vec::new();
        proof {
            self.lemma_view_wf();
        }
        match self.process_labels_recurse(
            start_node,
            &labels,
            &mut visited,
            &mut found,
            Ghost(self@.nodes.dom()),
        ) {
            Err(e) => {
                return Err(e);
            },
            Ok(_) => {},
        }
        let ghost walked = self@;
        let ghost walk = Walk { visited: visited@, found: found@ };
        let mut i: usize = 0;
        while i < found.len()
            invariant
                i <= found.len(),
                self.wf(),
                resolve_from(
                    old(self)@,
                    old(self)@.nodes.dom(),
                    start_node,
                    Seq::empty(),
                    (Walk { visited: Set::empty(), found: Seq::empty() }),
                ) == Ok::<(GraphModel, Walk), MethodProcessingErrorView>((walked, walk)),
                walk.found == found@,
                remove_labels(self@, found@, i as int) == remove_labels(walked, found@, 0),
            decreases found.len() - i,
        {
            match self.remove_label(found[i]) {
                Err(e) => {
                    return Err(e);
                },
                Ok(_) => {},
            }
            i += 1;
        }
        let ghost removed = self@;
        let end = self.taken_out.len();
        let mut n: usize = start_node as usize;
        while n < end
            invariant
                self.wf(),
                end == self.taken_out@.len(),
                end == removed.made,
                start_node <= n,
                n <= u32::MAX,
                resolve_from(
                    old(self)@,
                    old(self)@.nodes.dom(),
                    start_node,
                    Seq::empty(),
                    (Walk { visited: Set::empty(), found: Seq::empty() }),
                ) == Ok::<(GraphModel, Walk), MethodProcessingErrorView>((walked, walk)),
                remove_labels(walked, walk.found, 0) == Ok::<(GraphModel, ()), MethodProcessingErrorView>(
                    (removed, ()),
                ),
                sweep_labels(self@, n as u32, end as u32) == sweep_labels(
                    removed,
                    start_node,
                    end as u32,
                ),
            decreases end - n,
        {
            if self.is_placeholder(n as u32) {
                match self.remove_label(n as u32) {
                    Err(e) => {
                        return Err(e);
                    },
                    Ok(_) => {},
                }
            }
            n += 1;
        }
        Ok(())
    }

    /// Walks the graph from `current_node`, depth first, with `labels` in
    /// scope. `visited` holds the nodes that the walk has been at and
    /// `found` the label placeholders that it has found.
    fn process_labels_recurse(
        &mut self,
        current_node: u32,
        labels: &Vec<(&'a str, u32)>,
        visited: &mut HashSet<u32>,
        found: &mut Vec<u32>,
        Ghost(universe): Ghost<Set<u32>>,
    ) -> (r: Result<(), MethodProcessingError>)
        requires
            old(self).wf(),
            universe == old(self)@.nodes.dom(),
            universe.finite(),
        ensures
            match resolve_from(
                old(self)@,
                universe,
                current_node,
                labels@,
                (Walk { visited: old(visited)@, found: old(found)@ }),
            ) {
                Ok((g, walk)) => r is Ok && final(self)@ == g && final(visited)@ == walk.visited
                    && final(found)@ == walk.found,
                Err(e) => r is Err && r->Err_0@ == e,
            },
            r is Ok ==> final(self).wf() && final(self)@.nodes == old(self)@.nodes && old(
                visited,
            )@.subset_of(final(visited)@),
        decreases universe.difference(old(visited)@).len(), 0nat,
    {
        broadcast use vstd::std_specs::hash::group_hash_axioms;

        if visited.contains(&current_node) {
            return Ok(());
        }
        let current = match self.node_weight(current_node) {
            None => {
                return Err(MethodProcessingError::MalformedAst);
            },
            Some(node) => node,
        };
        visited.insert(current_node);
        let mut scope: Option<Vec<(&'a str, u32)>> = None;
        match (current.node_type, current.label) {
            (NodeType::ControlNode(control_type), Some(label)) => {
                match lookup_node(labels, label) {
                    None => {},
                    Some(label_node) => {
                        let kind = match control_type {
                            ControlType::Break => LabelEdge::Break,
                            ControlType::Continue => LabelEdge::Continue,
                            ControlType::Yield => {
                                return Err(
                                    MethodProcessingError::LabelProcessing {
                                        error: LabelProcessingError::NotImplemented(
                                            "Yield".to_owned(),
                                        ),
                                    },
                                );
                            },
                            ControlType::Return => {
                                return Err(
                                    MethodProcessingError::LabelProcessing {
                                        error: LabelProcessingError::ReturnToLabel,
                                    },
                                );
                            },
                        };
                        let outgoing = self.get_outgoing_edges(label_node);
                        match find_target(&outgoing, kind) {
                            None => {},
                            Some(target) => {
                                match self.add_statement_edge(current_node, target) {
                                    Err(e) => {
                                        return Err(e);
                                    },
                                    Ok(_) => {},
                                }
                            },
                        }
                    },
                }
            },
            (NodeType::Label, Some(label)) => {
                let mut extended: Vec<(&'a str, u32)> = Vec::new();
                let mut k: usize = 0;
                while k < labels.len()
                    invariant
                        k <= labels.len(),
                        extended@ == labels@.subrange(0, k as int),
                    decreases labels.len() - k,
                {
                    extended.push(labels[k]);
                    assert(extended@ =~= labels@.subrange(0, k + 1));
                    k += 1;
                }
                assert(extended@ =~= labels@);
                extended.push((label, current_node));
                scope = Some(extended);
                found.push(current_node);
            },
            _ => {},
        }
        let ghost at_node = self@;
        let ghost scope_model = if scope is Some {
            scope->0@
        } else {
            labels@
        };
        let ghost first_walk = Walk { visited: visited@, found: found@ };
        assert(resolve_node(old(self)@, current_node, labels@) matches Ok((g1, (s, f))) && g1 == at_node
            && s == scope_model && old(found)@ + f =~= found@);
        let targets = self.get_successors(current_node);
        assert(targets@ == successors(at_node, current_node));
        let ghost entry_walk = Walk { visited: old(visited)@, found: old(found)@ };
        assert(first_walk == (Walk {
            visited: entry_walk.visited.insert(current_node),
            found: found@,
        }));
        assert(resolve_from(old(self)@, universe, current_node, labels@, entry_walk)
            == resolve_successors(at_node, universe, targets@, 0, scope_model, first_walk));
        let mut i: usize = 0;
        while i < targets.len()
            invariant
                i <= targets.len(),
                self.wf(),
                self@.nodes == old(self)@.nodes,
                universe == old(self)@.nodes.dom(),
                universe.finite(),
                old(visited)@.insert(current_node).subset_of(visited@),
                universe.contains(current_node),
                !old(visited)@.contains(current_node),
                scope_model == if scope is Some {
                    scope->0@
                } else {
                    labels@
                },
                entry_walk == (Walk { visited: old(visited)@, found: old(found)@ }),
                resolve_from(old(self)@, universe, current_node, labels@, entry_walk)
                    == resolve_successors(at_node, universe, targets@, 0, scope_model, first_walk),
                resolve_successors(
                    self@,
                    universe,
                    targets@,
                    i as int,
                    scope_model,
                    (Walk { visited: visited@, found: found@ }),
                ) == resolve_successors(at_node, universe, targets@, 0, scope_model, first_walk),
            decreases targets.len() - i,
        {
            proof {
                let before = universe.difference(old(visited)@);
                let now = universe.difference(visited@);
                assert(now.subset_of(before.remove(current_node)));
                vstd::set_lib::lemma_len_subset(now, before.remove(current_node));
            }
            let ghost seen = visited@;
            let ghost here = self@;
            let ghost so_far = Walk { visited: visited@, found: found@ };
            assert(resolve_successors(here, universe, targets@, i as int, scope_model, so_far)
                == match resolve_from(here, universe, targets@[i as int], scope_model, so_far) {
                Err(e) => Err(e),
                Ok((g1, after)) => resolve_successors(
                    g1,
                    universe,
                    targets@,
                    i + 1,
                    scope_model,
                    (Walk { visited: so_far.visited.union(after.visited), found: after.found }),
                ),
            });
            let step = match &scope {
                Some(extended) => self.process_labels_recurse(
                    targets[i],
                    extended,
                    visited,
                    found,
                    Ghost(universe),
                ),
                None => self.process_labels_recurse(targets[i], labels, visited, found, Ghost(universe)),
            };
            match step {
                Err(e) => {
                    return Err(e);
                },
                Ok(_) => {},
            }
            assert(seen.union(visited@) =~= visited@);
            i += 1;
        }
        Ok(())
    }

    /// Builds the control-flow graph of a method. The root of the tree must
    /// be a function that has a name.
    pub fn process_method(nodes: &AstNode<'a>) -> (r: Result<MethodGraph<'a>, MethodProcessingError>)
        ensures
            match lower_method(*nodes) {
                Ok(g) => r is Ok && shows(r->Ok_0, g) && g.wf(),
                Err(e) => r is Err && r->Err_0@ == e,
            },
            r is Ok ==> resolved(lower_method(*nodes)->Ok_0) && framed(lower_method(*nodes)->Ok_0),
            r is Ok ==> named_after(lower_method(*nodes)->Ok_0, nodes.contents->FunctionBlock_0),
            r is Ok && flat_method(*nodes) ==> single_frame(lower_method(*nodes)->Ok_0),
            r is Ok && homing_method(*nodes) ==> returns_reach(lower_method(*nodes)->Ok_0, method_sink()),
            r is Ok && steady_method(*nodes) ==> decisions_branch(lower_method(*nodes)->Ok_0),
            r is Ok && anchored_method(*nodes) ==> sink_ends(lower_method(*nodes)->Ok_0),
    {
        proof {
            if lower_method(*nodes) is Ok {
                lemma_method_shape(*nodes);
            }
        }
        match &nodes.contents {
            AstNodeContents::FunctionBlock(f) => {
                if f.name.is_some() {
                    let mut ast_processor = AstProcessor {
                        method_graph: graph_new(),
                        taken_out: Vec::new(),
                    };
                    let no_handlers: Vec<(&'a str, u32)> = Vec::new();
                    let base = ProcessorContext {
                        label: None,
                        most_recent_node: None,
                        nearest_breakable_node: None,
                        nearest_continuable_node: None,
                        sink_node: None,
                        exception_nodes: &no_handlers,
                    };
                    assert(ast_processor@.nodes =~= Map::empty());
                    assert(ast_processor@ == GraphModel::empty());
                    assert(base@ =~= base_context());
                    match ast_processor.process_function(base, f) {
                        Err(e) => Err(e),
                        Ok(_) => {
                            proof {
                                ast_processor.lemma_view_wf();
                            }
                            Ok(ast_processor.into_graph())
                        },
                    }
                } else {
                    Err(MethodProcessingError::TopLevelAnonMethod)
                }
            },
            _ => Err(MethodProcessingError::NotAMethod),
        }
    }
}

} // verus!
