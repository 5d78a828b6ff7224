//! The core of an interpreter for Lox, a small dynamically typed
//! scripting language: a scanner, the statement and expression tree, the
//! scopes, the runtime values, and an evaluator that walks the tree.
//!
//! - [`scanner`] turns source bytes into tokens; [`lexical`] says what the
//!   tokens of a text are.
//! - [`expr`] and [`stmt`] are the tree a parser builds from the tokens.
//! - [`object`] holds the runtime values, [`number`] what can be decided
//!   about a double from its bits.
//! - [`environment`] holds the chain of scopes in which names are found.
//! - [`interpreter`] evaluates, one step at a time; [`machine`] says what
//!   each step does.
//! - [`semantics`] says what a program does by recursion over the tree,
//!   and [`simulation`] proves that the steps of the interpreter amount to
//!   just that.
//! - [`runtime_error`] holds the failures of evaluation.
//!
//! The evaluator computes no sums or products of doubles, writes no
//! output and runs no builtin: it asks its host to, and goes on when the
//! host hands it the result. A host is a loop around
//! [`interpreter::Interpreter::step`].

pub mod lexical;
pub mod scanner;
pub mod expr;
pub mod stmt;
pub mod number;
pub mod object;
pub mod runtime_error;
pub mod environment;
pub mod machine;
pub mod interpreter;
pub mod semantics;
pub mod simulation;
