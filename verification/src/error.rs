//! What can go wrong while a program runs.

use vstd::prelude::*;
use crate::status::Failure;

verus! {

/// An error that ends the run of a program.
#[derive(Clone, Debug, PartialEq, Eq)]
pub enum RuntimeError {
    /// An arithmetic or comparison operator met an operand that is no number.
    OperandMustBeNumber,
    /// `+` met operands that are neither two numbers nor two strings.
    OperandsMustMatch,
    /// A name was read or assigned that no scope in reach binds.
    UndefinedVariable(String),
    /// A binary expression whose operator token is no binary operator.
    UnsupportedBinary,
    /// A unary expression whose operator token is neither `!` nor `-`.
    UnsupportedUnary,
    /// A literal whose token is neither a literal nor an identifier.
    UnsupportedLiteral,
    /// A statement that is no expression, where only expressions are evaluated.
    NotAnExpression,
    /// The host answered a request with a reply of the wrong kind.
    UnexpectedReply,
}

/// What [`RuntimeError`] stands for in contracts.
pub enum RuntimeErrorView {
    OperandMustBeNumber,
    OperandsMustMatch,
    UndefinedVariable(Seq<char>),
    UnsupportedBinary,
    UnsupportedUnary,
    UnsupportedLiteral,
    NotAnExpression,
    UnexpectedReply,
}

impl View for RuntimeError {
    type V = RuntimeErrorView;

    open spec fn view(&self) -> RuntimeErrorView {
        match self {
            RuntimeError::OperandMustBeNumber => RuntimeErrorView::OperandMustBeNumber,
            RuntimeError::OperandsMustMatch => RuntimeErrorView::OperandsMustMatch,
            RuntimeError::UndefinedVariable(name) => RuntimeErrorView::UndefinedVariable(name@),
            RuntimeError::UnsupportedBinary => RuntimeErrorView::UnsupportedBinary,
            RuntimeError::UnsupportedUnary => RuntimeErrorView::UnsupportedUnary,
            RuntimeError::UnsupportedLiteral => RuntimeErrorView::UnsupportedLiteral,
            RuntimeError::NotAnExpression => RuntimeErrorView::NotAnExpression,
            RuntimeError::UnexpectedReply => RuntimeErrorView::UnexpectedReply,
        }
    }
}

impl RuntimeErrorView {
    /// The line that reports the error, if it has one.
    pub open spec fn message(self) -> Option<Seq<char>> {
        match self {
            RuntimeErrorView::OperandMustBeNumber => Some("Operand must be a number."@),
            RuntimeErrorView::OperandsMustMatch => Some(
                "Operands must be two numbers or two strings."@,
            ),
            RuntimeErrorView::UndefinedVariable(name) => Some(
                "Undefined variable '"@ + name + "'."@,
            ),
            RuntimeErrorView::UnsupportedBinary => Some("Unsupported binary expression."@),
            RuntimeErrorView::UnsupportedUnary => Some("Unsupported unary expression."@),
            RuntimeErrorView::UnsupportedLiteral => Some("Unsupported literal expression."@),
            RuntimeErrorView::NotAnExpression => None,
            RuntimeErrorView::UnexpectedReply => Some("Unexpected reply."@),
        }
    }

    /// Whether the error is one of the program's form or of its run.
    pub open spec fn failure(self) -> Failure {
        match self {
            RuntimeErrorView::UnsupportedBinary => Failure::Syntax,
            RuntimeErrorView::UnsupportedUnary => Failure::Syntax,
            RuntimeErrorView::UnsupportedLiteral => Failure::Syntax,
            RuntimeErrorView::NotAnExpression => Failure::Syntax,
            _ => Failure::Runtime,
        }
    }
}

impl RuntimeError {
    /// An equal error.
    pub fn duplicate(&self) -> (r: RuntimeError)
        ensures
            r@ == self@,
    {
        match self {
            RuntimeError::OperandMustBeNumber => RuntimeError::OperandMustBeNumber,
            RuntimeError::OperandsMustMatch => RuntimeError::OperandsMustMatch,
            RuntimeError::UndefinedVariable(name) => RuntimeError::UndefinedVariable(name.clone()),
            RuntimeError::UnsupportedBinary => RuntimeError::UnsupportedBinary,
            RuntimeError::UnsupportedUnary => RuntimeError::UnsupportedUnary,
            RuntimeError::UnsupportedLiteral => RuntimeError::UnsupportedLiteral,
            RuntimeError::NotAnExpression => RuntimeError::NotAnExpression,
            RuntimeError::UnexpectedReply => RuntimeError::UnexpectedReply,
        }
    }

    /// The line that reports the error, if it has one.
    pub fn message(&self) -> (r: Option<String>)
        ensures
            match r {
                Some(text) => self@.message() == Some(text@),
                None => self@.message().is_none(),
            },
    {
        match self {
            RuntimeError::OperandMustBeNumber => Some(
                String::from_str("Operand must be a number."),
            ),
            RuntimeError::OperandsMustMatch => Some(
                String::from_str("Operands must be two numbers or two strings."),
            ),
            RuntimeError::UndefinedVariable(name) => {
                let mut text = String::from_str("Undefined variable '");
                text.append(name.as_str());
                text.append("'.");
                Some(text)
            },
            RuntimeError::UnsupportedBinary => Some(
                String::from_str("Unsupported binary expression."),
            ),
            RuntimeError::UnsupportedUnary => Some(
                String::from_str("Unsupported unary expression."),
            ),
            RuntimeError::UnsupportedLiteral => Some(
                String::from_str("Unsupported literal expression."),
            ),
            RuntimeError::NotAnExpression => None,
            RuntimeError::UnexpectedReply => Some(String::from_str("Unexpected reply.")),
        }
    }

    /// Whether the error is one of the program's form or of its run.
    pub fn failure(&self) -> (r: Failure)
        ensures
            r == self@.failure(),
    {
        match self {
            RuntimeError::UnsupportedBinary => Failure::Syntax,
            RuntimeError::UnsupportedUnary => Failure::Syntax,
            RuntimeError::UnsupportedLiteral => Failure::Syntax,
            RuntimeError::NotAnExpression => Failure::Syntax,
            _ => Failure::Runtime,
        }
    }
}

} // verus!
