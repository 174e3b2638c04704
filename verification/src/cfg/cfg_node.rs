//! Payloads of the nodes and edges of a control-flow graph.

use vstd::prelude::*;

verus! {

/// Which kind of control transfer a control node stands for.
#[derive(Copy, Clone, Debug, PartialEq, Eq, Structural)]
pub enum ControlType {
    Break,
    Yield,
    Return,
    Continue,
}

/// The branch of a decision that an edge is taken on.
#[derive(Copy, Clone, Debug, PartialEq, Eq, Structural)]
pub enum Direction {
    True,
    False,
}

/// What an edge leaving a label placeholder stands for.
#[derive(Copy, Clone, Debug, PartialEq, Eq, Structural)]
pub enum LabelEdge {
    Continue,
    Break,
    Next,
}

/// The kind of a node, with the text it carries.
#[derive(Copy, Clone, Debug)]
pub enum NodeType<'a> {
    Source { name: Option<&'a str> },
    Sink { name: Option<&'a str> },
    Statement { statement: &'a str },
    ControlNode(ControlType),
    Decision { decision: &'a str },
    Exception { statement: &'a str },
    Label,
}

/// A node of the graph: an optional label and a kind.
#[derive(Copy, Clone, Debug)]
pub struct Node<'a> {
    pub label: Option<&'a str>,
    pub node_type: NodeType<'a>,
}

/// The payload of an edge.
#[derive(Copy, Clone, Debug)]
pub enum Edge<'a> {
    Statement,
    Decision(Direction),
    Exception { exception: &'a str },
    Label(LabelEdge),
}

impl<'a> Edge<'a> {
    /// Whether this edge tells where a labelled `break` goes.
    pub fn is_break(&self) -> (r: bool)
        ensures
            r == (*self == Edge::Label(LabelEdge::Break)),
    {
        match self {
            Edge::Label(LabelEdge::Break) => true,
            _ => false,
        }
    }

    /// Whether this edge tells where a labelled `continue` goes.
    pub fn is_continue(&self) -> (r: bool)
        ensures
            r == (*self == Edge::Label(LabelEdge::Continue)),
    {
        match self {
            Edge::Label(LabelEdge::Continue) => true,
            _ => false,
        }
    }

    /// Whether this edge leads from a label placeholder to what it labels.
    pub fn is_label_next(&self) -> (r: bool)
        ensures
            r == (*self == Edge::Label(LabelEdge::Next)),
    {
        match self {
            Edge::Label(LabelEdge::Next) => true,
            _ => false,
        }
    }
}

impl ControlType {
    /// The keyword of the transfer.
    pub fn to_text(&self) -> (r: &'static str)
        ensures
            r@ == self.text(),
    {
        match self {
            ControlType::Break => "break",
            ControlType::Yield => "yield",
            ControlType::Return => "return",
            ControlType::Continue => "continue",
        }
    }

    /// The keyword of the transfer.
    pub open spec fn text(&self) -> Seq<char> {
        match self {
            ControlType::Break => "break"@,
            ControlType::Yield => "yield"@,
            ControlType::Return => "return"@,
            ControlType::Continue => "continue"@,
        }
    }
}

impl<'a> NodeType<'a> {
    /// How the kind of a node reads in an exported graph.
    pub open spec fn text(&self) -> Seq<char> {
        match *self {
            NodeType::Source { name: Some(name) } => name@ + " source"@,
            NodeType::Source { name: None } => "anonymous source"@,
            NodeType::Sink { name: Some(name) } => name@ + " sink"@,
            NodeType::Sink { name: None } => "anonymous sink"@,
            NodeType::Statement { statement } => statement@,
            NodeType::ControlNode(control) => control.text(),
            NodeType::Decision { decision } => decision@,
            NodeType::Exception { statement } => statement@,
            NodeType::Label => "Dummy Label Node"@,
        }
    }

    /// How the kind of a node reads in an exported graph.
    pub fn to_text(&self) -> (r: String)
        ensures
            r@ == self.text(),
    {
        match self {
            NodeType::Source { name: Some(name) } => (*name).to_owned().concat(" source"),
            NodeType::Source { name: None } => "anonymous source".to_owned(),
            NodeType::Sink { name: Some(name) } => (*name).to_owned().concat(" sink"),
            NodeType::Sink { name: None } => "anonymous sink".to_owned(),
            NodeType::Statement { statement } => (*statement).to_owned(),
            NodeType::ControlNode(control) => control.to_text().to_owned(),
            NodeType::Decision { decision } => (*decision).to_owned(),
            NodeType::Exception { statement } => (*statement).to_owned(),
            NodeType::Label => "Dummy Label Node".to_owned(),
        }
    }
}

impl<'a> Node<'a> {
    /// How a node reads in an exported graph: its label, if it has one, then
    /// its kind.
    pub open spec fn text(&self) -> Seq<char> {
        match self.label {
            Some(label) => label@ + ": "@ + self.node_type.text(),
            None => self.node_type.text(),
        }
    }

    /// How a node reads in an exported graph.
    pub fn to_text(&self) -> (r: String)
        ensures
            r@ == self.text(),
    {
        let kind = self.node_type.to_text();
        match self.label {
            Some(label) => label.to_owned().concat(": ").concat(kind.as_str()),
            None => kind,
        }
    }
}

impl<'a> Edge<'a> {
    /// How an edge reads in an exported graph.
    pub open spec fn text(&self) -> Seq<char> {
        match *self {
            Edge::Statement => ""@,
            Edge::Decision(Direction::True) => "true"@,
            Edge::Decision(Direction::False) => "false"@,
            Edge::Exception { exception } => exception@,
            Edge::Label(LabelEdge::Continue) => "\"continue\""@,
            Edge::Label(LabelEdge::Break) => "\"break\""@,
            Edge::Label(LabelEdge::Next) => "\"next\""@,
        }
    }

    /// How an edge reads in an exported graph.
    pub fn to_text(&self) -> (r: String)
        ensures
            r@ == self.text(),
    {
        match self {
            Edge::Statement => "".to_owned(),
            Edge::Decision(Direction::True) => "true".to_owned(),
            Edge::Decision(Direction::False) => "false".to_owned(),
            Edge::Exception { exception } => (*exception).to_owned(),
            Edge::Label(LabelEdge::Continue) => "\"continue\"".to_owned(),
            Edge::Label(LabelEdge::Break) => "\"break\"".to_owned(),
            Edge::Label(LabelEdge::Next) => "\"next\"".to_owned(),
        }
    }
}

} // verus!
