use cfg_generator::cfg::cfg_node::{Direction, Edge, NodeType};
use cfg_generator::cfg::process_method;
use cfg_generator::messages::ast_node::{
    AstNode, AstNodeContents, Break, CatchBlock, Continue, Decision, DecisionBlock, FunctionBlock,
    LoopBlock, Return, Stmt, ThrowStatement, TryBlock,
};
use cfg_generator::messages::mixins::{Block, Statement};
use petgraph::visit::{EdgeRef, IntoEdgeReferences};

const TEXTS: [&str; 6] = ["a", "b", "c", "d", "e", "f"];
const LABELS: [&str; 3] = ["l", "m", "n"];

/// A source of numbers that is the same on every run.
struct Numbers(u64);

impl Numbers {
    fn next(&mut self, below: u64) -> u64 {
        self.0 = self.0.wrapping_mul(6364136223846793005).wrapping_add(1442695040888963407);
        (self.0 >> 33) % below
    }

    fn text(&mut self) -> &'static str {
        TEXTS[self.next(6) as usize]
    }

    fn label(&mut self) -> Option<&'static str> {
        if self.next(3) == 0 {
            Some(LABELS[self.next(3) as usize])
        } else {
            None
        }
    }
}

fn statements(numbers: &mut Numbers, depth: u32, try_body: bool) -> Block<'static> {
    let least = if try_body { 1 } else { 0 };
    let count = least + numbers.next(3);
    let mut list = Vec::new();
    for k in 0..count {
        // The first statement of the body of a `try` is one with an entry.
        list.push(tree(numbers, depth, try_body && k == 0));
    }
    Block { statements: list, breakable: false, continuable: false }
}

fn condition(numbers: &mut Numbers, depth: u32) -> Decision<'static> {
    match numbers.next(if depth == 0 { 2 } else { 4 }) {
        0 => Decision::Empty,
        1 => Decision::Unit(numbers.text()),
        2 => Decision::And(
            Box::new(condition(numbers, depth - 1)),
            Box::new(Decision::Unit(numbers.text())),
        ),
        _ => Decision::Or(
            Box::new(condition(numbers, depth - 1)),
            Box::new(Decision::Unit(numbers.text())),
        ),
    }
}

fn tree(numbers: &mut Numbers, depth: u32, simple: bool) -> AstNode<'static> {
    let kinds = if depth == 0 || simple { 5 } else { 9 };
    let contents = match numbers.next(kinds) {
        0 => AstNodeContents::Statement(Stmt { statement: Statement { code: numbers.text() } }),
        1 => AstNodeContents::Break(Break { label: numbers.label() }),
        2 => AstNodeContents::Continue(Continue { label: numbers.label() }),
        3 => AstNodeContents::Return(Return { expression: None }),
        4 => AstNodeContents::ThrowStatement(ThrowStatement {
            exception: vec![numbers.text(), numbers.text()],
            statement: Statement { code: numbers.text() },
        }),
        5 => {
            let first = numbers.next(2) == 0;
            AstNodeContents::LoopBlock(LoopBlock {
                initialization: if first && numbers.next(2) == 0 { vec![numbers.text()] } else { vec![] },
                update: if first && numbers.next(2) == 0 { vec![numbers.text()] } else { vec![] },
                condition: condition(numbers, 2),
                first_iteration_condition_check: first,
                block: statements(numbers, depth - 1, false),
            })
        }
        6 => AstNodeContents::DecisionBlock(DecisionBlock {
            condition: condition(numbers, 2),
            block: statements(numbers, depth - 1, false),
            else_node: if numbers.next(2) == 0 {
                Some(Box::new(tree(numbers, depth - 1, false)))
            } else {
                None
            },
        }),
        7 => AstNodeContents::TryBlock(TryBlock {
            block: statements(numbers, depth - 1, true),
            catches: (0..numbers.next(3))
                .map(|_| CatchBlock {
                    exception_types: vec![numbers.text()],
                    block: statements(numbers, depth - 1, false),
                })
                .collect(),
            finally: if numbers.next(2) == 0 {
                Some(statements(numbers, depth - 1, false))
            } else {
                None
            },
        }),
        _ => AstNodeContents::Block(statements(numbers, depth - 1, false)),
    };
    AstNode { label: numbers.label(), breakable: numbers.next(4) == 0, contents }
}

fn method(numbers: &mut Numbers) -> AstNode<'static> {
    AstNode {
        label: None,
        breakable: false,
        contents: AstNodeContents::FunctionBlock(FunctionBlock {
            name: Some("m"),
            namespace: vec![],
            parameter: vec![],
            block: statements(numbers, 4, false),
        }),
    }
}

#[test]
fn many_plain_trees_give_well_shaped_graphs() {
    let mut numbers = Numbers(7);
    let mut graphs = 0;
    let mut decisions = 0;
    for _ in 0..400 {
        let tree = method(&mut numbers);
        let graph = match process_method(&tree) {
            Ok((_, graph)) => graph,
            Err(_) => continue,
        };
        graphs += 1;
        let mut sources = 0;
        let mut sinks = 0;
        for i in graph.node_indices() {
            match graph[i].node_type {
                NodeType::Source { .. } => {
                    sources += 1;
                    assert_eq!(i.index(), 0);
                    assert_eq!(graph.edges_directed(i, petgraph::Direction::Incoming).count(), 0);
                }
                NodeType::Sink { .. } => {
                    sinks += 1;
                    assert_eq!(i.index(), 1);
                    assert_eq!(graph.edges(i).count(), 0);
                }
                NodeType::Decision { .. } => {
                    decisions += 1;
                    let count = |wanted: Direction| {
                        graph
                            .edges(i)
                            .filter(|e| matches!(e.weight(), Edge::Decision(d) if *d == wanted))
                            .count()
                    };
                    assert_eq!(count(Direction::True), 1);
                    assert_eq!(count(Direction::False), 1);
                }
                NodeType::ControlNode(cfg_generator::cfg::cfg_node::ControlType::Return) => {
                    assert!(graph
                        .edges(i)
                        .any(|e| e.target().index() == 1 && matches!(e.weight(), Edge::Statement)));
                }
                _ => {}
            }
        }
        assert_eq!((sources, sinks), (1, 1));
        // No label placeholder and no label edge is left.
        assert!(graph.node_weights().all(|n| !matches!(n.node_type, NodeType::Label)));
        assert!(graph.edge_weights().all(|e| !matches!(e, Edge::Label(_))));
        // Every edge joins two nodes of the graph.
        for e in graph.edge_references() {
            assert!(graph.contains_node(e.source()) && graph.contains_node(e.target()));
        }
        // The same tree gives the same graph.
        let again = process_method(&tree).unwrap().1;
        let edges = |g: &cfg_generator::cfg::graph::MethodGraph| -> Vec<(usize, usize, String)> {
            g.edge_references()
                .map(|e| (e.source().index(), e.target().index(), e.weight().to_text()))
                .collect()
        };
        assert_eq!(edges(&graph), edges(&again));
    }
    assert!(graphs > 200, "{} graphs", graphs);
    assert!(decisions > 200, "{} decisions", decisions);
}
