//! The errors of an evaluation.

use crate::text::copy_str;
use vstd::prelude::*;
use vstd::string::StringExecFns;

verus! {

/// Why an evaluation failed.
#[derive(Debug)]
pub enum EvaluationError {
    /// The store holds an encoded term that cannot be decoded.
    Decoding { msg: String },
    /// A graph that was to be created is there.
    GraphAlreadyExists { graph: String },
    /// A graph that was to be cleared or dropped is not there.
    GraphDoesNotExist { graph: String },
    /// What was to be loaded could not be had.
    Load { msg: String },
    /// The pattern holds what the evaluation does not take.
    Unsupported { msg: String },
    /// The store has changed since the transaction started.
    Conflict,
}

/// The message of an error.
pub open spec fn error_text(error: EvaluationError) -> Seq<char> {
    match error {
        EvaluationError::Decoding { msg } => msg@,
        EvaluationError::GraphAlreadyExists { graph } => "The graph <"@ + graph@
            + "> already exists"@,
        EvaluationError::GraphDoesNotExist { graph } => "The graph <"@ + graph@
            + "> does not exists"@,
        EvaluationError::Load { msg } => msg@,
        EvaluationError::Unsupported { msg } => msg@,
        EvaluationError::Conflict => "The store has changed since the transaction started"@,
    }
}

impl EvaluationError {
    /// The message of the error.
    pub fn message(&self) -> (r: String)
        ensures
            r@ == error_text(*self),
    {
        match self {
            EvaluationError::Decoding { msg } => copy_str(msg.as_str()),
            EvaluationError::GraphAlreadyExists { graph } => {
                let mut text = copy_str("The graph <");
                text.append(graph.as_str());
                text.append("> already exists");
                text
            },
            EvaluationError::GraphDoesNotExist { graph } => {
                let mut text = copy_str("The graph <");
                text.append(graph.as_str());
                text.append("> does not exists");
                text
            },
            EvaluationError::Load { msg } => copy_str(msg.as_str()),
            EvaluationError::Unsupported { msg } => copy_str(msg.as_str()),
            EvaluationError::Conflict => copy_str(
                "The store has changed since the transaction started",
            ),
        }
    }
}

} // verus!
