use bytes::BytesMut;
use cfg_generator::attr_types::{
    Bool, GtString, GtTypes, Int16, Int32, Int64, PickledPythonObject, VecBool, VecInt16,
    VecInt32, VecInt64, VecString,
};
use cfg_generator::cfg::cfg_node::{ControlType, Direction, Edge, LabelEdge, Node, NodeType};
use cfg_generator::cfg::errors::{LabelProcessingError, MethodProcessingError};
use cfg_generator::codec::{SizedDataCodec, SizedDataCodecError};
use cfg_generator::db::{
    Edge as EdgeRow, EdgeBorrowed, EdgeType, Graph, GraphBorrowed, Node as NodeRow, NodeBorrowed,
    NodeType as NodeRowType, Program, ProgramBorrowed,
};
use cfg_generator::messages::ast_node::{
    AstNode, AstNodeContents, Break, Continue, Decision, DecisionBlock, Exits, FunctionBlock,
    LoopBlock, Return, Stmt, ThrowStatement, YieldStatement,
};
use cfg_generator::messages::message::{frame, Message, MessageEncodingError};
use cfg_generator::messages::mixins::{Block, Statement};
use cfg_generator::server::message_processing::process_message;

#[test]
fn scalar_values_are_written_low_byte_first() {
    assert_eq!(Bool::get_type_byte(), 0x00);
    assert_eq!(Bool(true).get_value_bytes(), vec![1]);
    assert_eq!(Bool(false).get_value_bytes(), vec![0]);
    assert_eq!(Bool(true).get_num_bytes(), 1);
    assert_eq!(Bool(true).get_length(), None);

    assert_eq!(Int16::get_type_byte(), 0x01);
    assert_eq!(Int16(0x1234).get_value_bytes(), vec![0x34, 0x12]);
    assert_eq!(Int16(-2).get_value_bytes(), (-2i16).to_le_bytes().to_vec());
    assert_eq!(Int16(7).get_num_bytes(), 2);

    assert_eq!(Int32::get_type_byte(), 0x02);
    assert_eq!(Int32(0x0102_0304).get_value_bytes(), vec![4, 3, 2, 1]);
    assert_eq!(Int32(-1).get_value_bytes(), vec![0xff; 4]);
    assert_eq!(Int32(i32::MIN).get_value_bytes(), i32::MIN.to_le_bytes().to_vec());
    assert_eq!(Int32(7).get_num_bytes(), 4);

    assert_eq!(Int64::get_type_byte(), 0x03);
    assert_eq!(Int64(-3).get_value_bytes(), (-3i64).to_le_bytes().to_vec());
    assert_eq!(Int64(i64::MAX).get_value_bytes(), i64::MAX.to_le_bytes().to_vec());
    assert_eq!(Int64(7).get_num_bytes(), 8);
    assert_eq!(Int64(7).get_length(), None);
}

#[test]
fn texts_and_lists_carry_their_length() {
    let text = GtString::from("héllo".to_string());
    assert_eq!(GtString::get_type_byte(), 0x06);
    assert_eq!(text.get_length(), Some(6));
    assert_eq!(text.get_num_bytes(), 14);
    assert_eq!(text.get_value_bytes(), "héllo".as_bytes().to_vec());

    let flags = VecBool::from(vec![true, false, true]);
    assert_eq!(VecBool::get_type_byte(), 0x07);
    assert_eq!(flags.get_length(), Some(3));
    assert_eq!(flags.get_num_bytes(), 11);
    assert_eq!(flags.get_value_bytes(), vec![1, 0, 1]);

    let shorts = VecInt16::from(vec![1, -1]);
    assert_eq!(VecInt16::get_type_byte(), 0x08);
    assert_eq!(shorts.get_num_bytes(), 12);
    assert_eq!(shorts.get_value_bytes(), vec![1, 0, 0xff, 0xff]);

    let ints = VecInt32::from(vec![0x0a0b0c0d, 2]);
    assert_eq!(VecInt32::get_type_byte(), 0x09);
    assert_eq!(ints.get_length(), Some(2));
    assert_eq!(ints.get_num_bytes(), 16);
    assert_eq!(ints.get_value_bytes(), vec![0x0d, 0x0c, 0x0b, 0x0a, 2, 0, 0, 0]);

    let longs = VecInt64::from(vec![-1]);
    assert_eq!(VecInt64::get_type_byte(), 0x0a);
    assert_eq!(longs.get_num_bytes(), 16);
    assert_eq!(longs.get_value_bytes(), vec![0xff; 8]);

    let names = VecString::from(vec!["ab".to_string(), "c".to_string()]);
    assert_eq!(VecString::get_type_byte(), 0x0d);
    assert_eq!(names.get_length(), Some(2));
    assert_eq!(names.get_num_bytes(), 8 + 16 + 3);
    assert_eq!(names.get_value_bytes(), b"abc".to_vec());

    let pickle = PickledPythonObject::from(vec![9, 8, 7]);
    assert_eq!(PickledPythonObject::get_type_byte(), 0x0e);
    assert_eq!(pickle.get_length(), Some(3));
    assert_eq!(pickle.get_num_bytes(), 11);
    assert_eq!(pickle.get_value_bytes(), vec![9, 8, 7]);
}

#[test]
fn empty_lists_have_only_their_length_field() {
    assert_eq!(VecInt32::from(vec![]).get_num_bytes(), 8);
    assert_eq!(VecInt32::from(vec![]).get_value_bytes(), Vec::<u8>::new());
    assert_eq!(VecString::from(vec![]).get_num_bytes(), 8);
    assert_eq!(GtString::from(String::new()).get_length(), Some(0));
}

#[test]
fn codec_reads_a_length_and_then_the_data() {
    let mut codec = SizedDataCodec::new();
    let mut buffer = BytesMut::from(&[0u8, 0, 0, 0, 0, 0, 0, 3, b'a', b'b'][..]);
    // The length is read and taken out of the buffer.
    assert!(matches!(codec.decode(&mut buffer), Ok(None)));
    assert_eq!(&buffer[..], b"ab");
    // The data is not all there yet.
    assert!(matches!(codec.decode(&mut buffer), Ok(None)));
    assert_eq!(&buffer[..], b"ab");
    buffer.extend_from_slice(b"cde");
    let item = codec.decode(&mut buffer).unwrap().unwrap();
    assert_eq!(item.length, 3);
    assert_eq!(&item.bytes[..], b"abc");
    assert_eq!(&buffer[..], b"de");
    // The reader waits for a length again, and eight bytes are not there.
    assert!(matches!(codec.decode(&mut buffer), Ok(None)));
    assert_eq!(&buffer[..], b"de");
}

#[test]
fn codec_reads_the_length_most_significant_byte_first() {
    let mut codec = SizedDataCodec::default();
    let mut bytes = vec![0u8, 0, 0, 0, 0, 0, 1, 2];
    bytes.extend(std::iter::repeat(7u8).take(258));
    bytes.push(9);
    let mut buffer = BytesMut::from(&bytes[..]);
    assert!(matches!(codec.decode(&mut buffer), Ok(None)));
    let item = codec.decode(&mut buffer).unwrap().unwrap();
    assert_eq!(item.length, 258);
    assert!(item.bytes.iter().all(|b| *b == 7));
    assert_eq!(&buffer[..], &[9]);
}

#[test]
fn codec_yields_an_empty_frame() {
    let mut codec = SizedDataCodec::new();
    let mut buffer = BytesMut::from(&[0u8; 8][..]);
    assert!(matches!(codec.decode(&mut buffer), Ok(None)));
    let item = codec.decode(&mut buffer).unwrap().unwrap();
    assert_eq!(item.length, 0);
    assert!(buffer.is_empty());
}

#[test]
fn codec_error_reads_as_a_sentence() {
    let e = SizedDataCodecError::InvalidChunkSize("odd".to_string());
    assert_eq!(e.message(), "Invalid chunk decoded: odd");
}

#[test]
fn frame_puts_the_length_in_front() {
    assert_eq!(frame(vec![]), Ok(vec![0, 0, 0, 0]));
    assert_eq!(frame(vec![5, 6]), Ok(vec![0, 0, 0, 2, 5, 6]));
    let long = vec![1u8; 0x0102_03];
    let framed = frame(long.clone()).unwrap();
    assert_eq!(&framed[..4], &[0, 1, 2, 3]);
    assert_eq!(&framed[4..], &long[..]);
    assert_eq!(framed[..4].to_vec(), (long.len() as u32).to_be_bytes().to_vec());
}

#[test]
fn overflow_names_both_lengths() {
    let e = MessageEncodingError::Overflow(5, 4);
    assert_eq!(e, MessageEncodingError::Overflow(5, 4));
    assert_ne!(e, MessageEncodingError::Overflow(4, 5));
}

fn function<'a>(name: &'a str, statements: Vec<AstNode<'a>>) -> AstNode<'a> {
    AstNode {
        label: None,
        breakable: false,
        contents: AstNodeContents::FunctionBlock(FunctionBlock {
            name: Some(name),
            namespace: vec![],
            parameter: vec![],
            block: Block { statements, breakable: false, continuable: false },
        }),
    }
}

fn stmt<'a>(code: &'a str) -> AstNode<'a> {
    AstNode {
        label: None,
        breakable: false,
        contents: AstNodeContents::Statement(Stmt { statement: Statement { code } }),
    }
}

#[test]
fn message_yields_a_graph_for_each_method_in_order() {
    let message = Message {
        nodes: vec![function("f", vec![stmt("a")]), stmt("no method"), function("g", vec![])],
        methods: vec![2, 0],
        program_id: "p",
    };
    let graphs = process_message(&message).unwrap();
    assert_eq!(graphs.len(), 2);
    assert_eq!(graphs[0].0, Some("g".to_string()));
    assert_eq!(graphs[0].1.node_count(), 2);
    assert_eq!(graphs[1].0, Some("f".to_string()));
    assert_eq!(graphs[1].1.node_count(), 3);
    assert_eq!(graphs[1].1.edge_count(), 2);
}

#[test]
fn message_fails_at_the_first_method_that_fails() {
    let message = Message {
        nodes: vec![function("f", vec![]), stmt("no method")],
        methods: vec![0, 1, 7],
        program_id: "p",
    };
    assert!(matches!(process_message(&message), Err(MethodProcessingError::NotAMethod)));
    let message = Message { nodes: vec![function("f", vec![])], methods: vec![0, 1], program_id: "p" };
    assert!(matches!(process_message(&message), Err(MethodProcessingError::MalformedAst)));
    let message = Message { nodes: vec![], methods: vec![], program_id: "p" };
    assert_eq!(process_message(&message).unwrap().len(), 0);
}

#[test]
fn errors_read_as_sentences() {
    assert_eq!(
        MethodProcessingError::NotSupported("goto".to_string()).message(),
        "This functionality is not supported: goto"
    );
    assert_eq!(
        MethodProcessingError::NotAMethod.message(),
        "You provided a starting node that was not a method node"
    );
    assert_eq!(
        MethodProcessingError::TopLevelAnonMethod.message(),
        "You provided a function node that was supposed to have a name but did not"
    );
    assert_eq!(
        MethodProcessingError::TriedToCreateDoForLoop.message(),
        "You tried to create a do-for loop which has no relation to programming languages"
    );
    assert_eq!(
        MethodProcessingError::NotImplemented("Yield".to_string()).message(),
        "You tried to use Yield which is not implemented"
    );
    assert_eq!(
        MethodProcessingError::from(LabelProcessingError::ReturnToLabel).message(),
        "There was an error processing the labels: There was an attempt to return to a label"
    );
    assert_eq!(
        LabelProcessingError::EmptySomeLabel.message(),
        "The node had a label but the label was empty"
    );
    assert_eq!(
        LabelProcessingError::NotImplemented("Yield".to_string()).message(),
        "You tried to use Yield which is not implemented"
    );
    assert_eq!(MethodProcessingError::MalformedAst.message(), "The syntax tree is malformed");
    assert!(matches!(
        MethodProcessingError::from(LabelProcessingError::EmptySomeLabel),
        MethodProcessingError::LabelProcessing { error: LabelProcessingError::EmptySomeLabel }
    ));
}

#[test]
fn nodes_and_edges_read_as_texts() {
    let source = NodeType::Source { name: Some("f") };
    assert_eq!(source.to_text(), "f source");
    assert_eq!(NodeType::Source { name: None }.to_text(), "anonymous source");
    assert_eq!(NodeType::Sink { name: Some("f") }.to_text(), "f sink");
    assert_eq!(NodeType::Sink { name: None }.to_text(), "anonymous sink");
    assert_eq!(NodeType::Statement { statement: "x=1" }.to_text(), "x=1");
    assert_eq!(NodeType::Decision { decision: "a<b" }.to_text(), "a<b");
    assert_eq!(NodeType::Exception { statement: "boom" }.to_text(), "boom");
    assert_eq!(NodeType::ControlNode(ControlType::Break).to_text(), "break");
    assert_eq!(NodeType::ControlNode(ControlType::Continue).to_text(), "continue");
    assert_eq!(NodeType::ControlNode(ControlType::Return).to_text(), "return");
    assert_eq!(NodeType::ControlNode(ControlType::Yield).to_text(), "yield");
    assert_eq!(NodeType::Label.to_text(), "Dummy Label Node");
    let node = Node { label: Some("x"), node_type: NodeType::ControlNode(ControlType::Return) };
    assert_eq!(node.to_text(), "x: return");
    let node = Node { label: None, node_type: NodeType::Statement { statement: "s" } };
    assert_eq!(node.to_text(), "s");

    assert_eq!(Edge::Statement.to_text(), "");
    assert_eq!(Edge::Decision(Direction::True).to_text(), "true");
    assert_eq!(Edge::Decision(Direction::False).to_text(), "false");
    assert_eq!(Edge::Exception { exception: "E" }.to_text(), "E");
    assert_eq!(Edge::Label(LabelEdge::Continue).to_text(), "\"continue\"");
    assert_eq!(Edge::Label(LabelEdge::Break).to_text(), "\"break\"");
    assert_eq!(Edge::Label(LabelEdge::Next).to_text(), "\"next\"");
}

#[test]
fn label_edges_tell_their_kind() {
    assert!(Edge::Label(LabelEdge::Break).is_break());
    assert!(!Edge::Label(LabelEdge::Next).is_break());
    assert!(!Edge::Statement.is_break());
    assert!(Edge::Label(LabelEdge::Continue).is_continue());
    assert!(!Edge::Label(LabelEdge::Break).is_continue());
    assert!(Edge::Label(LabelEdge::Next).is_label_next());
    assert!(!Edge::Decision(Direction::True).is_label_next());
    assert!(!Edge::Exception { exception: "E" }.is_label_next());
}

fn with<'a>(contents: AstNodeContents<'a>) -> AstNode<'a> {
    AstNode { label: None, breakable: false, contents }
}

#[test]
fn statements_that_control_leaves_exit() {
    let block = || Block { statements: vec![], breakable: false, continuable: false };
    assert_eq!(with(AstNodeContents::Break(Break { label: None })).exits(), Exits::Yes);
    assert_eq!(with(AstNodeContents::Continue(Continue { label: None })).exits(), Exits::Yes);
    assert_eq!(with(AstNodeContents::Return(Return { expression: None })).exits(), Exits::Yes);
    assert_eq!(
        with(AstNodeContents::YieldStatement(YieldStatement { statement: Statement { code: "y" } }))
            .exits(),
        Exits::Yes
    );
    assert_eq!(
        with(AstNodeContents::ThrowStatement(ThrowStatement {
            exception: vec!["E"],
            statement: Statement { code: "t" },
        }))
        .exits(),
        Exits::Yes
    );
    assert_eq!(stmt("x").exits(), Exits::No);
    assert_eq!(with(AstNodeContents::Block(block())).exits(), Exits::No);
    assert_eq!(
        with(AstNodeContents::DecisionBlock(DecisionBlock {
            condition: Decision::Empty,
            block: block(),
            else_node: None,
        }))
        .exits(),
        Exits::Yes
    );
    assert_eq!(
        with(AstNodeContents::LoopBlock(LoopBlock {
            initialization: vec![],
            update: vec![],
            condition: Decision::Empty,
            first_iteration_condition_check: true,
            block: block(),
        }))
        .exits(),
        Exits::Yes
    );
}

#[test]
fn rows_are_copied_with_their_texts() {
    let edge = EdgeRow::from(EdgeBorrowed {
        id: 1,
        graph_id: 2,
        source: 3,
        target: 4,
        edge_type: EdgeType::Exception,
        direction: None,
        exception: Some("E"),
    });
    assert_eq!((edge.id, edge.graph_id, edge.source, edge.target), (1, 2, 3, 4));
    assert_eq!(edge.edge_type, EdgeType::Exception);
    assert_eq!(edge.direction, None);
    assert_eq!(edge.exception, Some("E".to_string()));

    let graph = Graph::from(GraphBorrowed { id: 5, graph_id: "main", program_id: 6 });
    assert_eq!((graph.id, graph.graph_id.as_str(), graph.program_id), (5, "main", 6));

    let node = NodeRow::from(NodeBorrowed {
        id: 7,
        label: None,
        node_type: NodeRowType::Decision,
        contents: Some("a<b"),
        graph_id: 8,
    });
    assert_eq!(node.id, 7);
    assert_eq!(node.label, None);
    assert_eq!(node.node_type, NodeRowType::Decision);
    assert_eq!(node.contents, Some("a<b".to_string()));
    assert_eq!(node.graph_id, 8);

    let program = Program::from(ProgramBorrowed { id: 9, program_id: "prog" });
    assert_eq!((program.id, program.program_id.as_str()), (9, "prog"));
}
