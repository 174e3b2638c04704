use cfg_generator::cfg::cfg_node::{ControlType, Direction, Edge, Node, NodeType};
use cfg_generator::cfg::errors::{LabelProcessingError, MethodProcessingError};
use cfg_generator::cfg::graph::MethodGraph;
use cfg_generator::cfg::process_method;
use cfg_generator::messages::ast_node::{
    AstNode, AstNodeContents, Break, CatchBlock, Continue, Decision, DecisionBlock, FunctionBlock,
    Goto, LoopBlock, Return, Stmt, ThrowStatement, TryBlock, YieldStatement,
};
use cfg_generator::messages::mixins::{Block, Statement};
use petgraph::stable_graph::NodeIndex;
use petgraph::visit::{EdgeRef, IntoEdgeReferences};
use petgraph::Direction as Way;

fn block<'a>(statements: Vec<AstNode<'a>>) -> Block<'a> {
    Block { statements, breakable: false, continuable: false }
}

fn node<'a>(contents: AstNodeContents<'a>) -> AstNode<'a> {
    AstNode { label: None, breakable: false, contents }
}

fn labelled<'a>(label: &'a str, contents: AstNodeContents<'a>) -> AstNode<'a> {
    AstNode { label: Some(label), breakable: false, contents }
}

fn stmt<'a>(code: &'a str) -> AstNode<'a> {
    node(AstNodeContents::Statement(Stmt { statement: Statement { code } }))
}

fn function<'a>(name: Option<&'a str>, statements: Vec<AstNode<'a>>) -> AstNode<'a> {
    node(AstNodeContents::FunctionBlock(FunctionBlock {
        name,
        namespace: Vec::new(),
        parameter: Vec::new(),
        block: block(statements),
    }))
}

fn unit<'a>(expr: &'a str) -> Decision<'a> {
    Decision::Unit(expr)
}

fn lower<'a>(statements: Vec<AstNode<'a>>) -> MethodGraph<'a> {
    let method = function(Some("f"), statements);
    let (name, graph) = process_method(&method).unwrap();
    assert_eq!(name, Some("f".to_string()));
    // The graph borrows only the texts, which outlive the tree.
    graph
}

/// The one node whose text, as `describe` gives it, is `text`.
fn find(graph: &MethodGraph, text: &str) -> NodeIndex {
    let hits: Vec<NodeIndex> = graph
        .node_indices()
        .filter(|i| describe(&graph[*i]) == text)
        .collect();
    assert_eq!(hits.len(), 1, "nodes that read {:?}", text);
    hits[0]
}

fn describe(node: &Node) -> String {
    match node.node_type {
        NodeType::Source { .. } => "<source>".to_string(),
        NodeType::Sink { .. } => "<sink>".to_string(),
        NodeType::Statement { statement } => statement.to_string(),
        NodeType::Decision { decision } => format!("? {}", decision),
        NodeType::Exception { statement } => format!("! {}", statement),
        NodeType::ControlNode(ControlType::Break) => "<break>".to_string(),
        NodeType::ControlNode(ControlType::Continue) => "<continue>".to_string(),
        NodeType::ControlNode(ControlType::Return) => "<return>".to_string(),
        NodeType::ControlNode(ControlType::Yield) => "<yield>".to_string(),
        NodeType::Label => "<label>".to_string(),
    }
}

fn edge_text(edge: &Edge) -> String {
    match edge {
        Edge::Statement => "".to_string(),
        Edge::Decision(Direction::True) => "true".to_string(),
        Edge::Decision(Direction::False) => "false".to_string(),
        Edge::Exception { exception } => format!("throws {}", exception),
        Edge::Label(_) => "<label edge>".to_string(),
    }
}

/// Every edge as "source -kind-> target", sorted.
fn edges(graph: &MethodGraph) -> Vec<String> {
    let mut out: Vec<String> = graph
        .edge_references()
        .map(|e| {
            format!(
                "{} -{}-> {}",
                describe(&graph[e.source()]),
                edge_text(e.weight()),
                describe(&graph[e.target()])
            )
        })
        .collect();
    out.sort();
    out
}

fn texts(graph: &MethodGraph) -> Vec<String> {
    let mut out: Vec<String> = graph.node_weights().map(describe).collect();
    out.sort();
    out
}

fn sorted(mut v: Vec<&str>) -> Vec<String> {
    v.sort();
    v.into_iter().map(|s| s.to_string()).collect()
}

#[test]
fn empty_function_has_source_and_sink_only() {
    let method = function(Some("f"), vec![]);
    let (name, graph) = process_method(&method).unwrap();
    assert_eq!(name, Some("f".to_string()));
    assert_eq!(graph.node_count(), 2);
    assert_eq!(graph.edge_count(), 0);
    let source = find(&graph, "<source>");
    let sink = find(&graph, "<sink>");
    assert!(matches!(graph[source].node_type, NodeType::Source { name: Some("f") }));
    assert!(matches!(graph[sink].node_type, NodeType::Sink { name: Some("f") }));
}

#[test]
fn single_statement_sits_between_source_and_sink() {
    let graph = lower(vec![stmt("x=1")]);
    assert_eq!(graph.node_count(), 3);
    assert_eq!(edges(&graph), sorted(vec!["<source> --> x=1", "x=1 --> <sink>"]));
}

#[test]
fn two_statements_are_chained_in_order() {
    let graph = lower(vec![stmt("a"), stmt("b")]);
    assert_eq!(edges(&graph), sorted(vec!["<source> --> a", "a --> b", "b --> <sink>"]));
}

#[test]
fn if_else_branches_and_joins() {
    let graph = lower(vec![node(AstNodeContents::DecisionBlock(DecisionBlock {
        condition: unit("a"),
        block: block(vec![stmt("t")]),
        else_node: Some(Box::new(stmt("e"))),
    }))]);
    assert_eq!(graph.node_count(), 5);
    assert_eq!(
        texts(&graph),
        sorted(vec!["<source>", "? a", "t", "e", "<sink>"])
    );
    assert_eq!(
        edges(&graph),
        sorted(vec![
            "<source> --> ? a",
            "? a -true-> t",
            "? a -false-> e",
            "t --> <sink>",
            "e --> <sink>",
        ])
    );
}

#[test]
fn if_without_else_falls_to_the_continuation() {
    let graph = lower(vec![
        node(AstNodeContents::DecisionBlock(DecisionBlock {
            condition: unit("a"),
            block: block(vec![stmt("t")]),
            else_node: None,
        })),
        stmt("after"),
    ]);
    assert_eq!(
        edges(&graph),
        sorted(vec![
            "<source> --> ? a",
            "? a -true-> t",
            "? a -false-> after",
            "t --> after",
            "after --> <sink>",
        ])
    );
}

#[test]
fn while_loop_tests_before_the_body() {
    let graph = lower(vec![node(AstNodeContents::LoopBlock(LoopBlock {
        initialization: vec![],
        update: vec![],
        condition: unit("c"),
        first_iteration_condition_check: true,
        block: block(vec![stmt("b")]),
    }))]);
    assert_eq!(graph.node_count(), 4);
    assert_eq!(
        edges(&graph),
        sorted(vec![
            "<source> --> ? c",
            "? c -true-> b",
            "b --> ? c",
            "? c -false-> <sink>",
        ])
    );
}

#[test]
fn do_while_loop_tests_after_the_body() {
    let graph = lower(vec![node(AstNodeContents::LoopBlock(LoopBlock {
        initialization: vec![],
        update: vec![],
        condition: unit("c"),
        first_iteration_condition_check: false,
        block: block(vec![stmt("b")]),
    }))]);
    assert_eq!(
        edges(&graph),
        sorted(vec![
            "<source> --> b",
            "b --> ? c",
            "? c -true-> b",
            "? c -false-> <sink>",
        ])
    );
}

#[test]
fn for_loop_with_short_circuit_condition() {
    let graph = lower(vec![node(AstNodeContents::LoopBlock(LoopBlock {
        initialization: vec!["i=0"],
        update: vec!["i++"],
        condition: Decision::And(Box::new(unit("i<n")), Box::new(unit("ok"))),
        first_iteration_condition_check: true,
        block: block(vec![stmt("body")]),
    }))]);
    assert_eq!(graph.node_count(), 7);
    assert_eq!(
        edges(&graph),
        sorted(vec![
            "<source> --> i=0",
            "i=0 --> ? i<n",
            "? i<n -true-> ? ok",
            "? i<n -false-> <sink>",
            "? ok -true-> body",
            "body --> i++",
            "i++ --> ? i<n",
            "? ok -false-> <sink>",
        ])
    );
}

#[test]
fn or_condition_short_circuits_on_true() {
    let graph = lower(vec![node(AstNodeContents::DecisionBlock(DecisionBlock {
        condition: Decision::Or(Box::new(unit("p")), Box::new(unit("q"))),
        block: block(vec![stmt("t")]),
        else_node: None,
    }))]);
    assert_eq!(
        edges(&graph),
        sorted(vec![
            "<source> --> ? p",
            "? p -true-> t",
            "? p -false-> ? q",
            "? q -true-> t",
            "? q -false-> <sink>",
            "t --> <sink>",
        ])
    );
}

#[test]
fn try_catch_routes_the_throw_to_its_handler() {
    let graph = lower(vec![node(AstNodeContents::TryBlock(TryBlock {
        block: block(vec![node(AstNodeContents::ThrowStatement(ThrowStatement {
            exception: vec!["E"],
            statement: Statement { code: "panic" },
        }))]),
        catches: vec![CatchBlock { exception_types: vec!["E"], block: block(vec![stmt("h")]) }],
        finally: None,
    }))]);
    assert_eq!(graph.node_count(), 4);
    // The last edge is the one that every statement gets that control does
    // not leave at, from its entry to what follows it.
    assert_eq!(
        edges(&graph),
        sorted(vec![
            "<source> --> ! panic",
            "! panic -throws E-> h",
            "h --> <sink>",
            "! panic --> <sink>",
        ])
    );
}

#[test]
fn unmatched_throw_goes_to_the_sink_with_its_first_exception() {
    let graph = lower(vec![node(AstNodeContents::TryBlock(TryBlock {
        block: block(vec![node(AstNodeContents::ThrowStatement(ThrowStatement {
            exception: vec!["A", "B"],
            statement: Statement { code: "panic" },
        }))]),
        catches: vec![CatchBlock { exception_types: vec!["E"], block: block(vec![stmt("h")]) }],
        finally: None,
    }))]);
    assert_eq!(
        edges(&graph),
        sorted(vec![
            "<source> --> ! panic",
            "! panic -throws A-> <sink>",
            "h --> <sink>",
            "! panic --> <sink>",
        ])
    );
}

#[test]
fn throw_takes_the_first_listed_exception_that_is_caught() {
    let graph = lower(vec![node(AstNodeContents::TryBlock(TryBlock {
        block: block(vec![node(AstNodeContents::ThrowStatement(ThrowStatement {
            exception: vec!["A", "E2", "E1"],
            statement: Statement { code: "panic" },
        }))]),
        catches: vec![
            CatchBlock { exception_types: vec!["E1"], block: block(vec![stmt("h1")]) },
            CatchBlock { exception_types: vec!["E2"], block: block(vec![stmt("h2")]) },
        ],
        finally: None,
    }))]);
    assert_eq!(
        edges(&graph),
        sorted(vec![
            "<source> --> ! panic",
            "! panic -throws E2-> h2",
            "h1 --> <sink>",
            "h2 --> <sink>",
            "! panic --> <sink>",
        ])
    );
}

#[test]
fn try_body_and_handlers_fall_through_to_finally() {
    let graph = lower(vec![node(AstNodeContents::TryBlock(TryBlock {
        block: block(vec![stmt("work")]),
        catches: vec![CatchBlock { exception_types: vec!["E"], block: block(vec![stmt("h")]) }],
        finally: Some(block(vec![stmt("cleanup")])),
    }))]);
    assert_eq!(
        edges(&graph),
        sorted(vec![
            "<source> --> work",
            "work --> cleanup",
            "h --> cleanup",
            "cleanup --> <sink>",
            // The entry of a `try` is linked to what follows the `try`, as
            // the entry of every statement that control does not leave at.
            "work --> <sink>",
        ])
    );
}

#[test]
fn return_goes_to_the_sink() {
    let graph = lower(vec![
        node(AstNodeContents::Return(Return { expression: Some("x") })),
        stmt("dead"),
    ]);
    let ret = find(&graph, "<return>");
    assert_eq!(graph[ret].label, Some("x"));
    assert_eq!(
        edges(&graph),
        sorted(vec!["<source> --> <return>", "<return> --> <sink>", "dead --> <sink>"])
    );
}

#[test]
fn unlabelled_break_leaves_the_loop() {
    let graph = lower(vec![
        AstNode {
            label: None,
            breakable: true,
            contents: AstNodeContents::LoopBlock(LoopBlock {
                initialization: vec![],
                update: vec![],
                condition: unit("c"),
                first_iteration_condition_check: true,
                block: block(vec![node(AstNodeContents::Break(Break { label: None }))]),
            }),
        },
        stmt("after"),
    ]);
    assert_eq!(
        edges(&graph),
        sorted(vec![
            "<source> --> ? c",
            "? c -true-> <break>",
            "<break> --> after",
            "? c -false-> after",
            "after --> <sink>",
        ])
    );
}

#[test]
fn unlabelled_continue_goes_back_to_the_update() {
    let graph = lower(vec![node(AstNodeContents::LoopBlock(LoopBlock {
        initialization: vec![],
        update: vec!["i++"],
        condition: unit("c"),
        first_iteration_condition_check: true,
        block: block(vec![node(AstNodeContents::Continue(Continue { label: None }))]),
    }))]);
    assert_eq!(
        edges(&graph),
        sorted(vec![
            "<source> --> ? c",
            "? c -true-> <continue>",
            "<continue> --> i++",
            "i++ --> ? c",
            "? c -false-> <sink>",
        ])
    );
}

#[test]
fn break_without_a_frame_is_a_dead_end() {
    let graph = lower(vec![node(AstNodeContents::Break(Break { label: None }))]);
    assert_eq!(edges(&graph), sorted(vec!["<source> --> <break>"]));
}

#[test]
fn labelled_break_reaches_what_follows_the_labelled_loop() {
    let graph = lower(vec![
        labelled(
            "outer",
            AstNodeContents::LoopBlock(LoopBlock {
                initialization: vec![],
                update: vec![],
                condition: unit("c"),
                first_iteration_condition_check: true,
                block: block(vec![node(AstNodeContents::Break(Break { label: Some("outer") }))]),
            }),
        ),
        stmt("after"),
    ]);
    assert!(graph.node_weights().all(|n| !matches!(n.node_type, NodeType::Label)));
    assert!(graph.edge_weights().all(|e| !matches!(e, Edge::Label(_))));
    assert_eq!(
        edges(&graph),
        sorted(vec![
            "<source> --> ? c",
            "? c -true-> <break>",
            "<break> --> after",
            "? c -false-> after",
            "after --> <sink>",
        ])
    );
}

#[test]
fn labelled_continue_reaches_the_condition_of_the_labelled_loop() {
    let graph = lower(vec![labelled(
        "outer",
        AstNodeContents::LoopBlock(LoopBlock {
            initialization: vec![],
            update: vec![],
            condition: unit("c"),
            first_iteration_condition_check: true,
            block: block(vec![node(AstNodeContents::Continue(Continue { label: Some("outer") }))]),
        }),
    )]);
    assert!(graph.node_weights().all(|n| !matches!(n.node_type, NodeType::Label)));
    assert_eq!(
        edges(&graph),
        sorted(vec![
            "<source> --> ? c",
            "? c -true-> <continue>",
            "<continue> --> ? c",
            "? c -false-> <sink>",
        ])
    );
}

#[test]
fn empty_loop_makes_no_node() {
    let graph = lower(vec![node(AstNodeContents::LoopBlock(LoopBlock {
        initialization: vec![],
        update: vec![],
        condition: Decision::Empty,
        first_iteration_condition_check: true,
        block: block(vec![]),
    }))]);
    assert_eq!(graph.node_count(), 2);
    assert_eq!(graph.edge_count(), 0);
}

#[test]
fn loop_without_condition_goes_round_its_body() {
    let graph = lower(vec![node(AstNodeContents::LoopBlock(LoopBlock {
        initialization: vec![],
        update: vec![],
        condition: Decision::Empty,
        first_iteration_condition_check: true,
        block: block(vec![stmt("b")]),
    }))]);
    assert_eq!(edges(&graph), sorted(vec!["<source> --> b", "b --> b"]));
}

#[test]
fn loop_with_initialization_and_update_only() {
    let graph = lower(vec![node(AstNodeContents::LoopBlock(LoopBlock {
        initialization: vec!["i=0", "j=0"],
        update: vec!["i++"],
        condition: Decision::Empty,
        first_iteration_condition_check: true,
        block: block(vec![]),
    }))]);
    assert_eq!(graph.node_count(), 5);
    assert_eq!(
        edges(&graph),
        sorted(vec!["<source> --> i=0", "i=0 --> j=0", "j=0 --> i++", "i++ --> i++"])
    );
}

#[test]
fn loop_with_condition_only_turns_on_itself() {
    let graph = lower(vec![node(AstNodeContents::LoopBlock(LoopBlock {
        initialization: vec![],
        update: vec![],
        condition: unit("c"),
        first_iteration_condition_check: true,
        block: block(vec![]),
    }))]);
    assert_eq!(graph.node_count(), 3);
    assert_eq!(
        edges(&graph),
        sorted(vec!["<source> --> ? c", "? c -true-> ? c", "? c -false-> <sink>"])
    );
}

#[test]
fn root_that_is_no_function_is_refused() {
    let method = stmt("x");
    assert!(matches!(process_method(&method), Err(MethodProcessingError::NotAMethod)));
}

#[test]
fn function_without_a_name_is_refused() {
    let method = function(None, vec![]);
    assert!(matches!(process_method(&method), Err(MethodProcessingError::TopLevelAnonMethod)));
}

#[test]
fn yield_is_not_implemented() {
    let method = function(
        Some("f"),
        vec![node(AstNodeContents::YieldStatement(YieldStatement {
            statement: Statement { code: "y" },
        }))],
    );
    match process_method(&method) {
        Err(MethodProcessingError::NotImplemented(what)) => {
            assert_eq!(what, "Yield")
        }
        other => panic!("{:?}", other.map(|_| ())),
    }
}

#[test]
fn throw_without_an_exception_is_not_supported() {
    let method = function(
        Some("f"),
        vec![node(AstNodeContents::ThrowStatement(ThrowStatement {
            exception: vec![],
            statement: Statement { code: "panic" },
        }))],
    );
    match process_method(&method) {
        Err(MethodProcessingError::NotSupported(what)) => assert_eq!(
            what,
            "Throw statements must have at least one exception"
        ),
        other => panic!("{:?}", other.map(|_| ())),
    }
}

#[test]
fn goto_is_not_supported() {
    let method = function(Some("f"), vec![node(AstNodeContents::Goto(Goto { label: "l" }))]);
    assert!(matches!(process_method(&method), Err(MethodProcessingError::NotSupported(_))));
}

#[test]
fn do_for_loop_is_refused() {
    let method = function(
        Some("f"),
        vec![node(AstNodeContents::LoopBlock(LoopBlock {
            initialization: vec!["i=0"],
            update: vec![],
            condition: unit("c"),
            first_iteration_condition_check: false,
            block: block(vec![stmt("b")]),
        }))],
    );
    assert!(matches!(process_method(&method), Err(MethodProcessingError::TriedToCreateDoForLoop)));
}

#[test]
fn empty_label_is_refused() {
    let method = function(Some("f"), vec![labelled("", AstNodeContents::Statement(Stmt {
        statement: Statement { code: "x" },
    }))]);
    assert!(matches!(
        process_method(&method),
        Err(MethodProcessingError::LabelProcessing { error: LabelProcessingError::EmptySomeLabel })
    ));
}

#[test]
fn return_that_names_a_label_in_scope_is_refused() {
    let method = function(
        Some("f"),
        vec![labelled(
            "l",
            AstNodeContents::Block(block(vec![node(AstNodeContents::Return(Return {
                expression: Some("l"),
            }))])),
        )],
    );
    assert!(matches!(
        process_method(&method),
        Err(MethodProcessingError::LabelProcessing { error: LabelProcessingError::ReturnToLabel })
    ));
}

#[test]
fn connective_with_an_empty_right_side_is_malformed() {
    let method = function(
        Some("f"),
        vec![node(AstNodeContents::DecisionBlock(DecisionBlock {
            condition: Decision::And(Box::new(unit("a")), Box::new(Decision::Empty)),
            block: block(vec![stmt("t")]),
            else_node: None,
        }))],
    );
    assert!(matches!(process_method(&method), Err(MethodProcessingError::MalformedAst)));
}

#[test]
fn lowering_twice_gives_the_same_graph() {
    let build = || {
        function(
            Some("f"),
            vec![
                labelled(
                    "outer",
                    AstNodeContents::LoopBlock(LoopBlock {
                        initialization: vec!["i=0"],
                        update: vec!["i++"],
                        condition: Decision::Or(Box::new(unit("p")), Box::new(unit("q"))),
                        first_iteration_condition_check: true,
                        block: block(vec![
                            stmt("b"),
                            node(AstNodeContents::Break(Break { label: Some("outer") })),
                        ]),
                    }),
                ),
                stmt("after"),
            ],
        )
    };
    let first = build();
    let second = build();
    let a = process_method(&first).unwrap().1;
    let b = process_method(&second).unwrap().1;
    assert_eq!(edges(&a), edges(&b));
    assert_eq!(texts(&a), texts(&b));
    let ids = |g: &MethodGraph| -> Vec<(usize, usize, String)> {
        g.edge_references()
            .map(|e| (e.source().index(), e.target().index(), edge_text(e.weight())))
            .collect()
    };
    assert_eq!(ids(&a), ids(&b));
    let into_sink = |g: &MethodGraph| g.edges_directed(find(g, "<sink>"), Way::Incoming).count();
    assert_eq!(into_sink(&a), into_sink(&b));
}
