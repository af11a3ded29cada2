//! The three error families of the pipeline: lexical, syntactic, and
//! evaluation errors. Each carries enough data to rebuild its message.

use vstd::prelude::*;
use vstd::string::StringExecFns;

use crate::binary_op::{spec_op_text, BinaryOp};
use crate::scanner::{Token, TokenV};

verus! {

/// An error found while scanning characters into tokens. Scanning may
/// resume after any of these.
#[derive(Clone, Copy, Debug, PartialEq, Eq, Structural)]
pub enum TokenError {
    /// A character that starts no token; the scanner steps past it.
    UnexpectedChar(char),
    /// The input ended inside a string literal; a caller reading input
    /// interactively treats this as "more input needed".
    IncompleteString,
    /// A backslash followed by anything but `"` or `\`.
    InvalidEscape,
}

/// An error found while parsing tokens into expressions.
#[derive(Clone, Debug, PartialEq)]
pub enum ParseError {
    /// A lexical error surfaced through the parser.
    ScanError(TokenError),
    /// A token that the grammar does not allow at this point.
    Unexpected(Token),
    /// The input ended in the middle of a construct; a caller reading input
    /// interactively treats this as "more input needed".
    UnexpectedEOF,
}

/// The mathematical shape of a `ParseError`.
pub enum ParseErrorV {
    ScanError(TokenError),
    Unexpected(TokenV),
    UnexpectedEOF,
}

impl View for ParseError {
    type V = ParseErrorV;

    open spec fn view(&self) -> ParseErrorV {
        match self {
            ParseError::ScanError(e) => ParseErrorV::ScanError(*e),
            ParseError::Unexpected(t) => ParseErrorV::Unexpected(t@),
            ParseError::UnexpectedEOF => ParseErrorV::UnexpectedEOF,
        }
    }
}

/// An error raised while evaluating an expression.
#[derive(Clone, Debug, PartialEq)]
pub enum ExecuteError {
    /// A variable read that no frame of the scope chain binds.
    UndefinedVar(String),
    /// A call to a function name that is not a built-in.
    UndefinedFunc(String),
    /// An arithmetic or relational operator applied to operands it is not
    /// defined for.
    InvalidOperation { left: String, op: BinaryOp, right: String },
    /// The evaluation step budget ran out; evaluation of every expression
    /// is bounded so that it provably terminates.
    StepLimit,
}

/// The mathematical shape of an `ExecuteError`.
pub enum ExecuteErrorV {
    UndefinedVar(Seq<char>),
    UndefinedFunc(Seq<char>),
    InvalidOperation { left: Seq<char>, op: BinaryOp, right: Seq<char> },
    StepLimit,
}

impl View for ExecuteError {
    type V = ExecuteErrorV;

    open spec fn view(&self) -> ExecuteErrorV {
        match self {
            ExecuteError::UndefinedVar(s) => ExecuteErrorV::UndefinedVar(s@),
            ExecuteError::UndefinedFunc(s) => ExecuteErrorV::UndefinedFunc(s@),
            ExecuteError::InvalidOperation { left, op, right } => ExecuteErrorV::InvalidOperation {
                left: left@,
                op: *op,
                right: right@,
            },
            ExecuteError::StepLimit => ExecuteErrorV::StepLimit,
        }
    }
}

/// The human-readable message of an evaluation error.
pub open spec fn spec_message(e: ExecuteErrorV) -> Seq<char> {
    match e {
        ExecuteErrorV::UndefinedVar(s) => "undefined variable \""@ + s + "\""@,
        ExecuteErrorV::UndefinedFunc(s) => "undefined function \""@ + s + "\""@,
        ExecuteErrorV::InvalidOperation { left, op, right } => "invalid operation ("@ + left
            + " "@ + spec_op_text(op) + " "@ + right + ")"@,
        ExecuteErrorV::StepLimit => "step limit exceeded"@,
    }
}

impl ExecuteError {
    /// The human-readable message of the error.
    pub fn message(&self) -> (r: String)
        ensures
            r@ == spec_message(self@),
    {
        match self {
            ExecuteError::UndefinedVar(s) => "undefined variable \"".to_owned().concat(
                s.as_str(),
            ).concat("\""),
            ExecuteError::UndefinedFunc(s) => "undefined function \"".to_owned().concat(
                s.as_str(),
            ).concat("\""),
            ExecuteError::InvalidOperation { left, op, right } => "invalid operation (".to_owned()
                .concat(left.as_str()).concat(" ").concat(op.op_text().as_str()).concat(" ")
                .concat(right.as_str()).concat(")"),
            ExecuteError::StepLimit => "step limit exceeded".to_owned(),
        }
    }
}

} // verus!
