//! The rows of the tables that graphs are stored in.

use vstd::prelude::*;

verus! {

/// The kind of a stored edge.
#[derive(Debug, Clone, Copy, PartialEq, Eq, Structural)]
pub enum EdgeType {
    Statement,
    Decision,
    Exception,
}

/// The kind of a stored node.
#[derive(Debug, Clone, Copy, PartialEq, Eq, Structural)]
pub enum NodeType {
    Source,
    Sink,
    Statement,
    Control,
    Decision,
    Exception,
}

/// What is given to store an edge.
#[derive(Debug)]
pub struct InsertEdgeParams<'a> {
    pub graph_id: i32,
    pub source: i32,
    pub target: i32,
    pub edge_type: EdgeType,
    pub direction: Option<bool>,
    pub exception: Option<&'a str>,
}

/// A stored edge.
#[derive(Debug, Clone)]
pub struct Edge {
    pub id: i32,
    pub graph_id: i32,
    pub source: i32,
    pub target: i32,
    pub edge_type: EdgeType,
    pub direction: Option<bool>,
    pub exception: Option<String>,
}

/// A stored edge, with its text borrowed from the row.
pub struct EdgeBorrowed<'a> {
    pub id: i32,
    pub graph_id: i32,
    pub source: i32,
    pub target: i32,
    pub edge_type: EdgeType,
    pub direction: Option<bool>,
    pub exception: Option<&'a str>,
}

/// What is given to store a graph.
#[derive(Debug)]
pub struct InsertGraphParams<'a> {
    pub graph_id: &'a str,
    pub program_id: i32,
}

/// A stored graph.
#[derive(Debug, Clone)]
pub struct Graph {
    pub id: i32,
    pub graph_id: String,
    pub program_id: i32,
}

/// A stored graph, with its text borrowed from the row.
pub struct GraphBorrowed<'a> {
    pub id: i32,
    pub graph_id: &'a str,
    pub program_id: i32,
}

/// What is given to store a node.
#[derive(Debug)]
pub struct InsertNodeParams<'a> {
    pub label: Option<&'a str>,
    pub node_type: NodeType,
    pub contents: Option<&'a str>,
    pub graph_id: i32,
}

/// A stored node.
#[derive(Debug, Clone)]
pub struct Node {
    pub id: i32,
    pub label: Option<String>,
    pub node_type: NodeType,
    pub contents: Option<String>,
    pub graph_id: i32,
}

/// A stored node, with its texts borrowed from the row.
pub struct NodeBorrowed<'a> {
    pub id: i32,
    pub label: Option<&'a str>,
    pub node_type: NodeType,
    pub contents: Option<&'a str>,
    pub graph_id: i32,
}

/// A stored program.
#[derive(Debug, Clone)]
pub struct Program {
    pub id: i32,
    pub program_id: String,
}

/// A stored program, with its text borrowed from the row.
pub struct ProgramBorrowed<'a> {
    pub id: i32,
    pub program_id: &'a str,
}

/// The characters of an optional text.
pub open spec fn text_of(s: Option<String>) -> Option<Seq<char>> {
    match s {
        Some(t) => Some(t@),
        None => None,
    }
}

/// The characters of an optional borrowed text.
pub open spec fn borrowed_text_of(s: Option<&str>) -> Option<Seq<char>> {
    match s {
        Some(t) => Some(t@),
        None => None,
    }
}

/// An owned copy of an optional borrowed text.
pub fn own_text(s: Option<&str>) -> (r: Option<String>)
    ensures
        text_of(r) == borrowed_text_of(s),
{
    match s {
        Some(t) => Some(t.to_owned()),
        None => None,
    }
}

impl<'a> From<EdgeBorrowed<'a>> for Edge {
    /// The row with an owned copy of its text.
    fn from(row: EdgeBorrowed<'a>) -> (r: Edge)
        ensures
            r.id == row.id,
            r.graph_id == row.graph_id,
            r.source == row.source,
            r.target == row.target,
            r.edge_type == row.edge_type,
            r.direction == row.direction,
            text_of(r.exception) == borrowed_text_of(row.exception),
    {
        Edge {
            id: row.id,
            graph_id: row.graph_id,
            source: row.source,
            target: row.target,
            edge_type: row.edge_type,
            direction: row.direction,
            exception: own_text(row.exception),
        }
    }
}

impl<'a> From<GraphBorrowed<'a>> for Graph {
    /// The row with an owned copy of its text.
    fn from(row: GraphBorrowed<'a>) -> (r: Graph)
        ensures
            r.id == row.id,
            r.graph_id@ == row.graph_id@,
            r.program_id == row.program_id,
    {
        Graph { id: row.id, graph_id: row.graph_id.to_owned(), program_id: row.program_id }
    }
}

impl<'a> From<NodeBorrowed<'a>> for Node {
    /// The row with an owned copy of its texts.
    fn from(row: NodeBorrowed<'a>) -> (r: Node)
        ensures
            r.id == row.id,
            text_of(r.label) == borrowed_text_of(row.label),
            r.node_type == row.node_type,
            text_of(r.contents) == borrowed_text_of(row.contents),
            r.graph_id == row.graph_id,
    {
        Node {
            id: row.id,
            label: own_text(row.label),
            node_type: row.node_type,
            contents: own_text(row.contents),
            graph_id: row.graph_id,
        }
    }
}

impl<'a> From<ProgramBorrowed<'a>> for Program {
    /// The row with an owned copy of its text.
    fn from(row: ProgramBorrowed<'a>) -> (r: Program)
        ensures
            r.id == row.id,
            r.program_id@ == row.program_id@,
    {
        Program { id: row.id, program_id: row.program_id.to_owned() }
    }
}

// An owned text is not a value that a specification can name, so what each
// conversion returns is stated field by field above and not as one value.
impl<'a> vstd::std_specs::convert::FromSpecImpl<EdgeBorrowed<'a>> for Edge {
    open spec fn obeys_from_spec() -> bool {
        false
    }

    open spec fn from_spec(row: EdgeBorrowed<'a>) -> Edge {
        arbitrary()
    }
}

impl<'a> vstd::std_specs::convert::FromSpecImpl<GraphBorrowed<'a>> for Graph {
    open spec fn obeys_from_spec() -> bool {
        false
    }

    open spec fn from_spec(row: GraphBorrowed<'a>) -> Graph {
        arbitrary()
    }
}

impl<'a> vstd::std_specs::convert::FromSpecImpl<NodeBorrowed<'a>> for Node {
    open spec fn obeys_from_spec() -> bool {
        false
    }

    open spec fn from_spec(row: NodeBorrowed<'a>) -> Node {
        arbitrary()
    }
}

impl<'a> vstd::std_specs::convert::FromSpecImpl<ProgramBorrowed<'a>> for Program {
    open spec fn obeys_from_spec() -> bool {
        false
    }

    open spec fn from_spec(row: ProgramBorrowed<'a>) -> Program {
        arbitrary()
    }
}

} // verus!
