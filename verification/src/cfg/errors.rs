//! The ways in which lowering a method can fail.

use vstd::prelude::*;

verus! {

/// A failure of the pass that resolves labels.
#[derive(Debug)]
pub enum LabelProcessingError {
    /// A `return` names a label that is in scope.
    ReturnToLabel,
    /// The construct named in the text is not implemented.
    NotImplemented(String),
    /// A node carries a label that is the empty text.
    EmptySomeLabel,
}

/// A failure of the lowering of a method.
#[derive(Debug)]
pub enum MethodProcessingError {
    /// What the text describes is not supported.
    NotSupported(String),
    /// The root of the tree is not a function.
    NotAMethod,
    /// The function at the root of the tree has no name.
    TopLevelAnonMethod,
    /// A loop tests its condition after the body and yet has initialization
    /// or update statements.
    TriedToCreateDoForLoop,
    /// The construct named in the text is not implemented.
    NotImplemented(String),
    /// The pass that resolves labels failed.
    LabelProcessing { error: LabelProcessingError },
    /// The tree asks for something that has no meaning: a connective with an
    /// empty right side, a jump to a node that is no longer in the graph.
    MalformedAst,
}

/// What a `LabelProcessingError` is, with texts as sequences of characters.
pub enum LabelProcessingErrorView {
    ReturnToLabel,
    NotImplemented(Seq<char>),
    EmptySomeLabel,
}

/// What a `MethodProcessingError` is, with texts as sequences of characters.
pub enum MethodProcessingErrorView {
    NotSupported(Seq<char>),
    NotAMethod,
    TopLevelAnonMethod,
    TriedToCreateDoForLoop,
    NotImplemented(Seq<char>),
    LabelProcessing { error: LabelProcessingErrorView },
    MalformedAst,
}

impl View for LabelProcessingError {
    type V = LabelProcessingErrorView;

    open spec fn view(&self) -> LabelProcessingErrorView {
        match *self {
            LabelProcessingError::ReturnToLabel => LabelProcessingErrorView::ReturnToLabel,
            LabelProcessingError::NotImplemented(s) => LabelProcessingErrorView::NotImplemented(s@),
            LabelProcessingError::EmptySomeLabel => LabelProcessingErrorView::EmptySomeLabel,
        }
    }
}

impl View for MethodProcessingError {
    type V = MethodProcessingErrorView;

    open spec fn view(&self) -> MethodProcessingErrorView {
        match *self {
            MethodProcessingError::NotSupported(s) => MethodProcessingErrorView::NotSupported(s@),
            MethodProcessingError::NotAMethod => MethodProcessingErrorView::NotAMethod,
            MethodProcessingError::TopLevelAnonMethod => MethodProcessingErrorView::TopLevelAnonMethod,
            MethodProcessingError::TriedToCreateDoForLoop => MethodProcessingErrorView::TriedToCreateDoForLoop,
            MethodProcessingError::NotImplemented(s) => MethodProcessingErrorView::NotImplemented(s@),
            MethodProcessingError::LabelProcessing { error } => MethodProcessingErrorView::LabelProcessing {
                error: error@,
            },
            MethodProcessingError::MalformedAst => MethodProcessingErrorView::MalformedAst,
        }
    }
}

impl From<LabelProcessingError> for MethodProcessingError {
    fn from(error: LabelProcessingError) -> (r: MethodProcessingError) {
        MethodProcessingError::LabelProcessing { error }
    }
}

impl vstd::std_specs::convert::FromSpecImpl<LabelProcessingError> for MethodProcessingError {
    open spec fn obeys_from_spec() -> bool {
        true
    }

    open spec fn from_spec(error: LabelProcessingError) -> MethodProcessingError {
        MethodProcessingError::LabelProcessing { error }
    }
}

impl LabelProcessingError {
    /// The sentence that describes this failure.
    pub fn message(&self) -> (r: String)
        ensures
            r@ == match self@ {
                LabelProcessingErrorView::ReturnToLabel => "There was an attempt to return to a label"@,
                LabelProcessingErrorView::NotImplemented(s) => "You tried to use "@ + s
                    + " which is not implemented"@,
                LabelProcessingErrorView::EmptySomeLabel => "The node had a label but the label was empty"@,
            },
    {
        match self {
            LabelProcessingError::ReturnToLabel => "There was an attempt to return to a label".to_owned(),
            LabelProcessingError::NotImplemented(s) => {
                "You tried to use ".to_owned().concat(s.as_str()).concat(" which is not implemented")
            },
            LabelProcessingError::EmptySomeLabel => "The node had a label but the label was empty".to_owned(),
        }
    }
}

impl MethodProcessingError {
    /// The sentence that describes this failure.
    pub fn message(&self) -> (r: String)
        ensures
            r@ == match self@ {
                MethodProcessingErrorView::NotSupported(s) => "This functionality is not supported: "@ + s,
                MethodProcessingErrorView::NotAMethod => "You provided a starting node that was not a method node"@,
                MethodProcessingErrorView::TopLevelAnonMethod => "You provided a function node that was supposed to have a name but did not"@,
                MethodProcessingErrorView::TriedToCreateDoForLoop => "You tried to create a do-for loop which has no relation to programming languages"@,
                MethodProcessingErrorView::NotImplemented(s) => "You tried to use "@ + s
                    + " which is not implemented"@,
                MethodProcessingErrorView::LabelProcessing { error } => "There was an error processing the labels: "@
                    + match error {
                    LabelProcessingErrorView::ReturnToLabel => "There was an attempt to return to a label"@,
                    LabelProcessingErrorView::NotImplemented(s) => "You tried to use "@ + s
                        + " which is not implemented"@,
                    LabelProcessingErrorView::EmptySomeLabel => "The node had a label but the label was empty"@,
                },
                MethodProcessingErrorView::MalformedAst => "The syntax tree is malformed"@,
            },
    {
        match self {
            MethodProcessingError::NotSupported(s) => {
                "This functionality is not supported: ".to_owned().concat(s.as_str())
            },
            MethodProcessingError::NotAMethod => {
                "You provided a starting node that was not a method node".to_owned()
            },
            MethodProcessingError::TopLevelAnonMethod => {
                "You provided a function node that was supposed to have a name but did not".to_owned()
            },
            MethodProcessingError::TriedToCreateDoForLoop => {
                "You tried to create a do-for loop which has no relation to programming languages".to_owned()
            },
            MethodProcessingError::NotImplemented(s) => {
                "You tried to use ".to_owned().concat(s.as_str()).concat(" which is not implemented")
            },
            MethodProcessingError::LabelProcessing { error } => {
                let inner = error.message();
                "There was an error processing the labels: ".to_owned().concat(inner.as_str())
            },
            MethodProcessingError::MalformedAst => "The syntax tree is malformed".to_owned(),
        }
    }
}

} // verus!
