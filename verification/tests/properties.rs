use cfg_generator::cfg::cfg_node::{ControlType, Direction, Edge, NodeType};
use cfg_generator::cfg::errors::MethodProcessingError;
use cfg_generator::cfg::graph::MethodGraph;
use cfg_generator::cfg::process_method;
use cfg_generator::messages::ast_node::{
    AstNode, AstNodeContents, Break, CatchBlock, Continue, Decision, DecisionBlock, FunctionBlock,
    LoopBlock, Return, Stmt, ThrowStatement, TryBlock,
};
use cfg_generator::messages::mixins::{Block, Statement};
use petgraph::stable_graph::NodeIndex;
use petgraph::visit::{EdgeRef, IntoEdgeReferences};
use petgraph::Direction as Way;

fn body<'a>(statements: Vec<AstNode<'a>>) -> Block<'a> {
    Block { statements, breakable: false, continuable: false }
}

fn plain<'a>(contents: AstNodeContents<'a>) -> AstNode<'a> {
    AstNode { label: None, breakable: false, contents }
}

fn named<'a>(label: &'a str, contents: AstNodeContents<'a>) -> AstNode<'a> {
    AstNode { label: Some(label), breakable: false, contents }
}

fn say<'a>(code: &'a str) -> AstNode<'a> {
    plain(AstNodeContents::Statement(Stmt { statement: Statement { code } }))
}

fn method<'a>(statements: Vec<AstNode<'a>>) -> AstNode<'a> {
    plain(AstNodeContents::FunctionBlock(FunctionBlock {
        name: Some("m"),
        namespace: vec![],
        parameter: vec![],
        block: body(statements),
    }))
}

fn when<'a>(condition: Decision<'a>, then: Vec<AstNode<'a>>, otherwise: Option<AstNode<'a>>) -> AstNode<'a> {
    plain(AstNodeContents::DecisionBlock(DecisionBlock {
        condition,
        block: body(then),
        else_node: otherwise.map(Box::new),
    }))
}

fn looping<'a>(
    initialization: Vec<&'a str>,
    condition: Decision<'a>,
    update: Vec<&'a str>,
    statements: Vec<AstNode<'a>>,
) -> AstNodeContents<'a> {
    AstNodeContents::LoopBlock(LoopBlock {
        initialization,
        update,
        condition,
        first_iteration_condition_check: true,
        block: body(statements),
    })
}

fn and<'a>(l: Decision<'a>, r: Decision<'a>) -> Decision<'a> {
    Decision::And(Box::new(l), Box::new(r))
}

fn or<'a>(l: Decision<'a>, r: Decision<'a>) -> Decision<'a> {
    Decision::Or(Box::new(l), Box::new(r))
}

fn throw<'a>(exception: Vec<&'a str>, code: &'a str) -> AstNode<'a> {
    plain(AstNodeContents::ThrowStatement(ThrowStatement { exception, statement: Statement { code } }))
}

/// Trees that hold every construct, each several times and nested.
fn samples<'a>() -> Vec<AstNode<'a>> {
    vec![
        method(vec![]),
        method(vec![say("a"), say("b"), say("c")]),
        method(vec![
            when(
                and(Decision::Unit("p"), or(Decision::Unit("q"), Decision::Unit("r"))),
                vec![say("t"), plain(AstNodeContents::Return(Return { expression: Some("1") }))],
                Some(when(Decision::Unit("s"), vec![say("u")], Some(say("v")))),
            ),
            say("w"),
            plain(AstNodeContents::Return(Return { expression: None })),
        ]),
        method(vec![
            named(
                "outer",
                looping(
                    vec!["i=0"],
                    Decision::Unit("i<n"),
                    vec!["i++"],
                    vec![
                        plain(looping(
                            vec![],
                            or(Decision::Unit("a"), and(Decision::Unit("b"), Decision::Unit("c"))),
                            vec![],
                            vec![
                                when(
                                    Decision::Unit("y"),
                                    vec![plain(AstNodeContents::Break(Break { label: Some("outer") }))],
                                    None,
                                ),
                                when(
                                    Decision::Unit("z"),
                                    vec![plain(AstNodeContents::Continue(Continue {
                                        label: Some("outer"),
                                    }))],
                                    None,
                                ),
                                when(
                                    Decision::Unit("x"),
                                    vec![plain(AstNodeContents::Break(Break { label: None }))],
                                    Some(plain(AstNodeContents::Continue(Continue { label: None }))),
                                ),
                            ],
                        )),
                        say("tail"),
                    ],
                ),
            ),
            say("after"),
        ]),
        method(vec![
            plain(AstNodeContents::TryBlock(TryBlock {
                block: body(vec![
                    say("risky"),
                    when(Decision::Unit("bad"), vec![throw(vec!["Io", "Other"], "fail")], None),
                    plain(AstNodeContents::TryBlock(TryBlock {
                        block: body(vec![throw(vec!["Inner"], "deep")]),
                        catches: vec![CatchBlock {
                            exception_types: vec!["Inner"],
                            block: body(vec![plain(AstNodeContents::Return(Return {
                                expression: Some("r"),
                            }))]),
                        }],
                        finally: None,
                    })),
                ]),
                catches: vec![
                    CatchBlock { exception_types: vec!["Io"], block: body(vec![say("on io")]) },
                    CatchBlock { exception_types: vec!["Other", "Io"], block: body(vec![]) },
                ],
                finally: Some(body(vec![say("close")])),
            })),
            say("done"),
        ]),
        method(vec![
            named("a", AstNodeContents::Block(body(vec![
                named("b", AstNodeContents::Statement(Stmt { statement: Statement { code: "s" } })),
                plain(AstNodeContents::Break(Break { label: Some("a") })),
            ]))),
            say("end"),
        ]),
    ]
}

fn kinds(graph: &MethodGraph, pick: fn(&NodeType) -> bool) -> Vec<NodeIndex> {
    graph.node_indices().filter(|i| pick(&graph[*i].node_type)).collect()
}

fn sources(graph: &MethodGraph) -> Vec<NodeIndex> {
    kinds(graph, |k| matches!(k, NodeType::Source { .. }))
}

fn sinks(graph: &MethodGraph) -> Vec<NodeIndex> {
    kinds(graph, |k| matches!(k, NodeType::Sink { .. }))
}

#[test]
fn no_label_placeholder_is_left() {
    for tree in samples() {
        let graph = process_method(&tree).unwrap().1;
        assert!(graph.node_weights().all(|n| !matches!(n.node_type, NodeType::Label)));
        assert!(graph.edge_weights().all(|e| !matches!(e, Edge::Label(_))));
    }
}

#[test]
fn every_decision_has_one_true_and_one_false_edge() {
    let mut decisions = 0;
    for tree in samples() {
        let graph = process_method(&tree).unwrap().1;
        for d in kinds(&graph, |k| matches!(k, NodeType::Decision { .. })) {
            decisions += 1;
            let count = |direction: Direction| {
                graph
                    .edges(d)
                    .filter(|e| match (e.weight(), direction) {
                        (Edge::Decision(Direction::True), Direction::True) => true,
                        (Edge::Decision(Direction::False), Direction::False) => true,
                        _ => false,
                    })
                    .count()
            };
            assert_eq!(count(Direction::True), 1);
            assert_eq!(count(Direction::False), 1);
        }
    }
    assert_eq!(decisions, 12);
}

#[test]
fn there_is_one_source_and_one_sink() {
    for tree in samples() {
        let graph = process_method(&tree).unwrap().1;
        let sources = sources(&graph);
        let sinks = sinks(&graph);
        assert_eq!(sources.len(), 1);
        assert_eq!(sinks.len(), 1);
        assert_eq!(sources[0].index(), 0);
        assert_eq!(sinks[0].index(), 1);
        assert_eq!(graph.edges_directed(sources[0], Way::Incoming).count(), 0);
        assert_eq!(graph.edges_directed(sinks[0], Way::Outgoing).count(), 0);
        assert!(matches!(graph[sinks[0]].node_type, NodeType::Sink { name: Some("m") }));
    }
}

#[test]
fn every_return_has_a_statement_edge_to_the_sink() {
    let mut returns = 0;
    for tree in samples() {
        let graph = process_method(&tree).unwrap().1;
        let sink = sinks(&graph)[0];
        for r in kinds(&graph, |k| matches!(k, NodeType::ControlNode(ControlType::Return))) {
            returns += 1;
            assert!(graph
                .edges(r)
                .any(|e| e.target() == sink && matches!(e.weight(), Edge::Statement)));
        }
    }
    assert_eq!(returns, 3);
}

fn targets_of(graph: &MethodGraph, from: &str) -> Vec<(String, String)> {
    let node = graph
        .node_indices()
        .find(|i| graph[*i].node_type.to_text() == from)
        .unwrap();
    let mut out: Vec<(String, String)> = graph
        .edges(node)
        .map(|e| (e.weight().to_text(), graph[e.target()].node_type.to_text()))
        .collect();
    out.sort();
    out
}

fn pairs(v: Vec<(&str, &str)>) -> Vec<(String, String)> {
    v.into_iter().map(|(a, b)| (a.to_string(), b.to_string())).collect()
}

#[test]
fn connectives_short_circuit() {
    // (p && q) || r, then t; else e.
    let tree = method(vec![when(
        or(and(Decision::Unit("p"), Decision::Unit("q")), Decision::Unit("r")),
        vec![say("t")],
        Some(say("e")),
    )]);
    let graph = process_method(&tree).unwrap().1;
    assert_eq!(targets_of(&graph, "p"), pairs(vec![("false", "r"), ("true", "q")]));
    assert_eq!(targets_of(&graph, "q"), pairs(vec![("false", "r"), ("true", "t")]));
    assert_eq!(targets_of(&graph, "r"), pairs(vec![("false", "e"), ("true", "t")]));
    assert_eq!(targets_of(&graph, "m source"), pairs(vec![("", "p")]));
}

#[test]
fn labelled_jumps_reach_their_loop() {
    let graph = process_method(&samples()[3]).unwrap().1;
    let breaks = kinds(&graph, |k| matches!(k, NodeType::ControlNode(ControlType::Break)));
    let continues = kinds(&graph, |k| matches!(k, NodeType::ControlNode(ControlType::Continue)));
    assert_eq!(breaks.len(), 2);
    assert_eq!(continues.len(), 2);
    let text = |i: NodeIndex| graph[i].node_type.to_text();
    let target = |i: NodeIndex| -> String {
        let all: Vec<NodeIndex> = graph.edges(i).map(|e| e.target()).collect();
        assert_eq!(all.len(), 1);
        text(all[0])
    };
    for b in breaks {
        match graph[b].label {
            // The labelled break leaves the outer loop.
            Some("outer") => assert_eq!(target(b), "after"),
            // The plain break leaves the inner loop.
            None => assert_eq!(target(b), "tail"),
            other => panic!("{:?}", other),
        }
    }
    for c in continues {
        match graph[c].label {
            // The labelled continue goes on with the update of the outer loop.
            Some("outer") => assert_eq!(target(c), "i++"),
            // The plain continue goes on with the condition of the inner loop.
            None => assert_eq!(target(c), "a"),
            other => panic!("{:?}", other),
        }
    }
}

#[test]
fn throws_are_routed_to_their_handlers() {
    let graph = process_method(&samples()[4]).unwrap().1;
    // The first catch that names `Io` wins over the later one.
    assert_eq!(targets_of(&graph, "fail"), pairs(vec![("Io", "on io")]));
    // The inner `try` has a handler of its own for what it throws.
    assert_eq!(targets_of(&graph, "deep"), pairs(vec![("", "close"), ("Inner", "return")]));
    // A handler with an empty body leads to the `finally` block.
    let tree = method(vec![plain(AstNodeContents::TryBlock(TryBlock {
        block: body(vec![throw(vec!["E"], "boom")]),
        catches: vec![CatchBlock { exception_types: vec!["E"], block: body(vec![]) }],
        finally: Some(body(vec![say("close")])),
    }))]);
    let graph = process_method(&tree).unwrap().1;
    assert_eq!(targets_of(&graph, "boom"), pairs(vec![("", "m sink"), ("E", "close")]));
    // With an empty `finally` block everything leads to what follows.
    let tree = method(vec![
        plain(AstNodeContents::TryBlock(TryBlock {
            block: body(vec![say("work")]),
            catches: vec![CatchBlock { exception_types: vec!["E"], block: body(vec![say("h")]) }],
            finally: Some(body(vec![])),
        })),
        say("next"),
    ]);
    let graph = process_method(&tree).unwrap().1;
    assert_eq!(targets_of(&graph, "work"), pairs(vec![("", "next"), ("", "next")]));
    assert_eq!(targets_of(&graph, "h"), pairs(vec![("", "next")]));
}

#[test]
fn a_loop_is_breakable_without_being_marked() {
    let tree = method(vec![
        plain(looping(
            vec![],
            Decision::Unit("c"),
            vec![],
            vec![plain(AstNodeContents::Break(Break { label: None }))],
        )),
        say("after"),
    ]);
    let graph = process_method(&tree).unwrap().1;
    assert_eq!(targets_of(&graph, "break"), pairs(vec![("", "after")]));
}

#[test]
fn a_marked_block_is_breakable() {
    let tree = method(vec![
        AstNode {
            label: None,
            breakable: true,
            contents: AstNodeContents::Block(body(vec![
                say("in"),
                plain(AstNodeContents::Break(Break { label: None })),
            ])),
        },
        say("after"),
    ]);
    let graph = process_method(&tree).unwrap().1;
    assert_eq!(targets_of(&graph, "break"), pairs(vec![("", "after")]));
}

#[test]
fn the_same_tree_gives_the_same_graph() {
    for (first, second) in samples().iter().zip(samples().iter()) {
        let a = process_method(first).unwrap().1;
        let b = process_method(second).unwrap().1;
        let nodes = |g: &MethodGraph| -> Vec<(usize, String)> {
            g.node_indices().map(|i| (i.index(), g[i].to_text())).collect()
        };
        let edges = |g: &MethodGraph| -> Vec<(usize, usize, String)> {
            g.edge_references()
                .map(|e| (e.source().index(), e.target().index(), e.weight().to_text()))
                .collect()
        };
        assert_eq!(nodes(&a), nodes(&b));
        assert_eq!(edges(&a), edges(&b));
    }
}

#[test]
fn no_index_is_used_twice() {
    // Five statements and the two ends. For each statement a placeholder was
    // made before it and taken out again; its index stays unused.
    let tree = method(vec![say("a"), say("b"), say("c"), say("d"), say("e")]);
    let graph = process_method(&tree).unwrap().1;
    let mut indices: Vec<(usize, String)> =
        graph.node_indices().map(|i| (i.index(), graph[i].to_text())).collect();
    indices.sort();
    let expected: Vec<(usize, String)> =
        vec![(0, "m source"), (1, "m sink"), (3, "e"), (5, "d"), (7, "c"), (9, "b"), (11, "a")]
            .into_iter()
            .map(|(i, t)| (i, t.to_string()))
            .collect();
    assert_eq!(indices, expected);
}

#[test]
fn a_function_inside_a_function_stands_by_itself() {
    let inner = plain(AstNodeContents::FunctionBlock(FunctionBlock {
        name: None,
        namespace: vec![],
        parameter: vec![],
        block: body(vec![say("in")]),
    }));
    let tree = method(vec![say("a"), inner, say("b")]);
    let graph = process_method(&tree).unwrap().1;
    assert_eq!(sources(&graph).len(), 2);
    assert_eq!(sinks(&graph).len(), 2);
    assert_eq!(targets_of(&graph, "a"), pairs(vec![("", "b")]));
    assert_eq!(targets_of(&graph, "in"), pairs(vec![("", "anonymous sink")]));
    assert_eq!(targets_of(&graph, "anonymous source"), pairs(vec![("", "in")]));
}

#[test]
fn a_loop_that_tests_after_an_empty_body_is_malformed() {
    let tree = method(vec![plain(AstNodeContents::LoopBlock(LoopBlock {
        initialization: vec![],
        update: vec![],
        condition: Decision::Unit("c"),
        first_iteration_condition_check: false,
        block: body(vec![]),
    }))]);
    assert!(matches!(process_method(&tree), Err(MethodProcessingError::MalformedAst)));
}

fn label_edges(graph: &MethodGraph) -> usize {
    graph.edge_references().filter(|e| matches!(e.weight(), Edge::Label(_))).count()
}

#[test]
fn an_unreachable_label_is_taken_out() {
    // The labelled statement follows a `return`, so the walk from the
    // source does not come to its placeholder.
    let tree = method(vec![
        plain(AstNodeContents::Return(Return { expression: None })),
        named("dead", AstNodeContents::Statement(Stmt { statement: Statement { code: "s" } })),
    ]);
    let graph = process_method(&tree).unwrap().1;
    assert_eq!(kinds(&graph, |k| matches!(k, NodeType::Label)).len(), 0);
    assert_eq!(label_edges(&graph), 0);
    assert_eq!(graph.node_count(), 4);
}

#[test]
fn a_labelled_loop_without_parts_leaves_no_placeholder() {
    let tree = method(vec![named("l", looping(vec![], Decision::Empty, vec![], vec![]))]);
    let graph = process_method(&tree).unwrap().1;
    assert_eq!(kinds(&graph, |k| matches!(k, NodeType::Label)).len(), 0);
    assert_eq!(graph.node_count(), 2);
    assert_eq!(graph.edge_count(), 0);
}

#[test]
fn a_labelled_else_leaves_no_label_edge() {
    let tree = method(vec![when(
        Decision::Empty,
        vec![],
        Some(named("l", AstNodeContents::Statement(Stmt { statement: Statement { code: "e" } }))),
    )]);
    let graph = process_method(&tree).unwrap().1;
    assert_eq!(kinds(&graph, |k| matches!(k, NodeType::Label)).len(), 0);
    assert_eq!(label_edges(&graph), 0);
}

#[test]
fn a_function_inside_a_labelled_block_leaves_the_label_in_force() {
    let inner = plain(AstNodeContents::FunctionBlock(FunctionBlock {
        name: None,
        namespace: vec![],
        parameter: vec![],
        block: body(vec![named(
            "in",
            AstNodeContents::Statement(Stmt { statement: Statement { code: "s" } }),
        )]),
    }));
    let tree = method(vec![
        named(
            "l",
            AstNodeContents::Block(body(vec![
                inner,
                plain(AstNodeContents::Break(Break { label: Some("l") })),
            ])),
        ),
        say("end"),
    ]);
    let graph = process_method(&tree).unwrap().1;
    assert_eq!(targets_of(&graph, "break"), pairs(vec![("", "end")]));
    assert_eq!(kinds(&graph, |k| matches!(k, NodeType::Label)).len(), 0);
    assert_eq!(label_edges(&graph), 0);
}

/// The exception edges that leave the node with the text `from`, as
/// (exception, target).
fn thrown_from(graph: &MethodGraph, from: &str) -> Vec<(String, String)> {
    let node = graph
        .node_indices()
        .find(|i| graph[*i].node_type.to_text() == from)
        .unwrap();
    let mut out: Vec<(String, String)> = graph
        .edges(node)
        .filter(|e| matches!(e.weight(), Edge::Exception { .. }))
        .map(|e| (e.weight().to_text(), graph[e.target()].node_type.to_text()))
        .collect();
    out.sort();
    out
}

#[test]
fn a_throw_in_an_inner_try_reaches_an_outer_handler() {
    let inner = plain(AstNodeContents::TryBlock(TryBlock {
        block: body(vec![throw(vec!["E"], "p")]),
        catches: vec![CatchBlock { exception_types: vec!["X"], block: body(vec![say("hx")]) }],
        finally: None,
    }));
    let tree = method(vec![plain(AstNodeContents::TryBlock(TryBlock {
        block: body(vec![inner]),
        catches: vec![CatchBlock { exception_types: vec!["E"], block: body(vec![say("h")]) }],
        finally: None,
    }))]);
    let graph = process_method(&tree).unwrap().1;
    assert_eq!(thrown_from(&graph, "p"), pairs(vec![("E", "h")]));
    // A handler of the inner `try` for the same exception comes first.
    let inner = plain(AstNodeContents::TryBlock(TryBlock {
        block: body(vec![throw(vec!["E"], "p")]),
        catches: vec![CatchBlock { exception_types: vec!["E"], block: body(vec![say("near")]) }],
        finally: None,
    }));
    let tree = method(vec![plain(AstNodeContents::TryBlock(TryBlock {
        block: body(vec![inner]),
        catches: vec![CatchBlock { exception_types: vec!["E"], block: body(vec![say("far")]) }],
        finally: None,
    }))]);
    let graph = process_method(&tree).unwrap().1;
    assert_eq!(thrown_from(&graph, "p"), pairs(vec![("E", "near")]));
    // With no handler anywhere the edge leads to the sink.
    let tree = method(vec![plain(AstNodeContents::TryBlock(TryBlock {
        block: body(vec![throw(vec!["E", "F"], "p")]),
        catches: vec![CatchBlock { exception_types: vec!["X"], block: body(vec![say("hx")]) }],
        finally: None,
    }))]);
    let graph = process_method(&tree).unwrap().1;
    assert_eq!(thrown_from(&graph, "p"), pairs(vec![("E", "m sink")]));
}

#[test]
fn the_walk_takes_the_newest_edge_first() {
    // The `break` is reached from the condition on two ways: on the `false`
    // edge, outside the labelled block, and through the block. The `false`
    // edge is the newer one, so the walk comes to the `break` before the
    // label is in scope, and the `break` stays a dead end.
    let tree = method(vec![
        when(
            Decision::Unit("p"),
            vec![named("l", AstNodeContents::Block(body(vec![say("a")])))],
            None,
        ),
        plain(AstNodeContents::Break(Break { label: Some("l") })),
    ]);
    let graph = process_method(&tree).unwrap().1;
    assert_eq!(targets_of(&graph, "break"), pairs(vec![]));
    assert_eq!(targets_of(&graph, "p"), pairs(vec![("false", "break"), ("true", "a")]));
}

#[test]
fn edges_that_entered_a_placeholder_are_copied_newest_first() {
    // Both edges of `x` lead to the placeholder that the body of the loop
    // falls through to. The `false` edge is the newer one and is copied
    // first, so of the copies the `true` edge is the newer one.
    let tree = method(vec![plain(looping(
        vec![],
        Decision::Unit("c"),
        vec![],
        vec![when(Decision::Unit("x"), vec![], None)],
    ))]);
    let graph = process_method(&tree).unwrap().1;
    let x = graph.node_indices().find(|i| graph[*i].node_type.to_text() == "x").unwrap();
    let kinds: Vec<String> = graph.edges(x).map(|e| e.weight().to_text()).collect();
    assert_eq!(kinds, vec!["true".to_string(), "false".to_string()]);
    assert_eq!(targets_of(&graph, "x"), pairs(vec![("false", "c"), ("true", "c")]));
}

#[test]
fn a_try_without_an_entry_that_does_not_stand_last_leaves_the_sink_closed() {
    let empty_try = || {
        plain(AstNodeContents::TryBlock(TryBlock { block: body(vec![]), catches: vec![], finally: None }))
    };
    // Before a statement, the statement follows the `try`.
    let tree = method(vec![empty_try(), say("x")]);
    let graph = process_method(&tree).unwrap().1;
    assert_eq!(sinks(&graph).len(), 1);
    assert_eq!(graph.edges(sinks(&graph)[0]).count(), 0);
    // The `try` is entered at the statement, and is linked to what follows it.
    assert_eq!(targets_of(&graph, "x"), pairs(vec![("", "m sink"), ("", "x")]));
    // In a loop, the condition of the loop follows the `try`.
    let tree = method(vec![plain(looping(vec![], Decision::Unit("c"), vec![], vec![empty_try()]))]);
    let graph = process_method(&tree).unwrap().1;
    assert_eq!(sinks(&graph).len(), 1);
    assert_eq!(graph.edges(sinks(&graph)[0]).count(), 0);
    assert_eq!(targets_of(&graph, "c"), pairs(vec![("false", "m sink"), ("true", "c")]));
    // With a `finally` block that has an entry, that entry follows the body.
    let tree = method(vec![plain(AstNodeContents::TryBlock(TryBlock {
        block: body(vec![]),
        catches: vec![],
        finally: Some(body(vec![say("close")])),
    }))]);
    let graph = process_method(&tree).unwrap().1;
    assert_eq!(graph.edges(sinks(&graph)[0]).count(), 0);
    // With a label, the `try` is entered at the label's placeholder, which
    // gives way to what follows the `try`.
    let tree = method(vec![
        say("x"),
        named(
            "l",
            AstNodeContents::TryBlock(TryBlock { block: body(vec![]), catches: vec![], finally: None }),
        ),
    ]);
    let graph = process_method(&tree).unwrap().1;
    assert_eq!(graph.edges(sinks(&graph)[0]).count(), 0);
    assert_eq!(targets_of(&graph, "x"), pairs(vec![("", "m sink")]));
}

#[test]
fn a_return_beside_a_function_reaches_the_sink_of_the_method() {
    let inner = plain(AstNodeContents::FunctionBlock(FunctionBlock {
        name: Some("g"),
        namespace: vec![],
        parameter: vec![],
        block: body(vec![say("in")]),
    }));
    let tree = method(vec![inner, plain(AstNodeContents::Return(Return { expression: Some("1") }))]);
    let graph = process_method(&tree).unwrap().1;
    assert_eq!(sinks(&graph).len(), 2);
    let returns = kinds(&graph, |k| matches!(k, NodeType::ControlNode(ControlType::Return)));
    assert_eq!(returns.len(), 1);
    let targets: Vec<String> =
        graph.edges(returns[0]).map(|e| graph[e.target()].node_type.to_text()).collect();
    assert_eq!(targets, vec!["m sink".to_string()]);
}
