//! Errors of parsing and of evaluation.
use vstd::prelude::*;

verus! {

/// Which of the two kinds of parse error a failure is.
#[derive(Debug, Clone, Copy, PartialEq, Eq, Structural)]
pub enum ErrorKind {
    /// A specific token was required and another one, or none, was found;
    /// also a failed evaluation, as the pipeline reports it.
    Unexpected,
    /// A construct (a literal, a name, an operator) was required and not found.
    Expected,
}

/// A parse error seen as its kind and the text of its message.
pub struct ParseError {
    pub kind: ErrorKind,
    pub message: Seq<char>,
}

/// An error of compiling a query, with a message that describes it.
#[derive(Debug, Clone, PartialEq)]
pub enum QueryError {
    Unexpected(String),
    Expected(String),
}

impl QueryError {
    /// The kind of the error.
    pub open spec fn kind(&self) -> ErrorKind {
        match self {
            QueryError::Unexpected(_) => ErrorKind::Unexpected,
            QueryError::Expected(_) => ErrorKind::Expected,
        }
    }

    /// The text of the error's message.
    pub open spec fn message_view(&self) -> Seq<char> {
        match self {
            QueryError::Unexpected(m) => m@,
            QueryError::Expected(m) => m@,
        }
    }

    /// The error seen as its kind and the text of its message.
    pub open spec fn error_view(&self) -> ParseError {
        ParseError { kind: self.kind(), message: self.message_view() }
    }

    /// The message of the error.
    pub fn message(&self) -> (r: String)
        ensures
            r@ == self.message_view(),
    {
        match self {
            QueryError::Unexpected(m) => m.clone(),
            QueryError::Expected(m) => m.clone(),
        }
    }
}

} // verus!
