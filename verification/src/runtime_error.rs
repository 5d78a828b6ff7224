//! Failures of evaluation.

use vstd::prelude::*;
use vstd::string::*;
use crate::scanner::{Token, TokenModel};

verus! {

/// What went wrong.
#[derive(Debug, PartialEq, Eq, Copy, Clone, Structural)]
pub enum ErrorKind {
    /// A name was read or assigned that no scope in reach declares.
    UndefinedVariable,
    /// An operator met an operand of a kind it does not take.
    TypeMismatch,
    /// A value that is no function was called.
    NotCallable,
    /// A function was called with another number of arguments than it takes.
    ArityMismatch,
}

/// A failure of evaluation: what went wrong, and the token at which it did.
/// The token gives the line for the report.
#[derive(Debug)]
pub struct RuntimeError {
    pub kind: ErrorKind,
    pub token: Token,
}

/// A failure as a mathematical value.
pub ghost struct RuntimeErrorModel {
    pub kind: ErrorKind,
    pub token: TokenModel,
}

impl View for RuntimeError {
    type V = RuntimeErrorModel;

    open spec fn view(&self) -> RuntimeErrorModel {
        RuntimeErrorModel { kind: self.kind, token: self.token@ }
    }
}

/// The message for each kind of failure.
pub open spec fn message_of(kind: ErrorKind) -> Seq<char> {
    match kind {
        ErrorKind::UndefinedVariable => "Undefined variable."@,
        ErrorKind::TypeMismatch => "Operands must be numbers."@,
        ErrorKind::NotCallable => "Can only call functions."@,
        ErrorKind::ArityMismatch => "Wrong number of arguments."@,
    }
}

impl RuntimeError {
    pub fn new(kind: ErrorKind, token: Token) -> (error: Self)
        ensures
            error@ == (RuntimeErrorModel { kind, token: token@ }),
    {
        RuntimeError { kind, token }
    }

    /// The message to report.
    pub fn message(&self) -> (text: String)
        ensures
            text@ == message_of(self.kind),
    {
        match self.kind {
            ErrorKind::UndefinedVariable => String::from_str("Undefined variable."),
            ErrorKind::TypeMismatch => String::from_str("Operands must be numbers."),
            ErrorKind::NotCallable => String::from_str("Can only call functions."),
            ErrorKind::ArityMismatch => String::from_str("Wrong number of arguments."),
        }
    }

    /// The source line to report.
    pub fn line(&self) -> (line: usize)
        ensures
            line == self.token.line,
    {
        self.token.line
    }
}

} // verus!
