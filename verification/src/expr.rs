//! Expressions: the part of the tree that yields values.

use vstd::prelude::*;
use crate::scanner::{Token, TokenModel};

verus! {

/// A constant written in the source. A number is held as the bit pattern
/// of its IEEE 754 double.
#[derive(Debug)]
pub enum Literal {
    Nil,
    Bool(bool),
    Number(u64),
    String(String),
}

/// A literal as a mathematical value.
pub ghost enum LiteralModel {
    Nil,
    Bool(bool),
    Number(u64),
    String(Seq<char>),
}

impl View for Literal {
    type V = LiteralModel;

    open spec fn view(&self) -> LiteralModel {
        match self {
            Literal::Nil => LiteralModel::Nil,
            Literal::Bool(value) => LiteralModel::Bool(*value),
            Literal::Number(bits) => LiteralModel::Number(*bits),
            Literal::String(text) => LiteralModel::String(text@),
        }
    }
}

impl Clone for Literal {
    fn clone(&self) -> (copy: Self)
        ensures
            copy@ == self@,
    {
        match self {
            Literal::Nil => Literal::Nil,
            Literal::Bool(value) => Literal::Bool(*value),
            Literal::Number(bits) => Literal::Number(*bits),
            Literal::String(text) => Literal::String(text.clone()),
        }
    }
}

/// An expression. Operators and names are kept as the tokens they were
/// read from, so that a failure can name its place in the source.
#[derive(Debug)]
pub enum Expr {
    /// `name = value`
    Assign(Token, Box<Expr>),
    /// `left operator right`, for arithmetic, comparison and equality.
    Binary(Box<Expr>, Token, Box<Expr>),
    /// `callee(arguments)`; the token is the closing parenthesis.
    Call(Box<Expr>, Token, Vec<Expr>),
    /// `(expression)`
    Grouping(Box<Expr>),
    Literal(Literal),
    /// `left and right`, `left or right`.
    Logical(Box<Expr>, Token, Box<Expr>),
    /// `-right`, `!right`.
    Unary(Token, Box<Expr>),
    Variable(Token),
}

/// An expression as a mathematical value.
pub ghost enum ExprModel {
    Assign(TokenModel, Box<ExprModel>),
    Binary(Box<ExprModel>, TokenModel, Box<ExprModel>),
    Call(Box<ExprModel>, TokenModel, Seq<ExprModel>),
    Grouping(Box<ExprModel>),
    Literal(LiteralModel),
    Logical(Box<ExprModel>, TokenModel, Box<ExprModel>),
    Unary(TokenModel, Box<ExprModel>),
    Variable(TokenModel),
}

/// The models of a list of expressions, in order.
pub open spec fn expr_models(exprs: Seq<Expr>) -> Seq<ExprModel> {
    Seq::new(exprs.len(), |i: int| exprs[i]@)
}

impl Expr {
    /// The expression as a mathematical value.
    pub open spec fn model(&self) -> ExprModel
        decreases self,
    {
        match self {
            Expr::Assign(name, value) => ExprModel::Assign(name@, Box::new(value.model())),
            Expr::Binary(left, operator, right) => ExprModel::Binary(
                Box::new(left.model()),
                operator@,
                Box::new(right.model()),
            ),
            Expr::Call(callee, paren, arguments) => ExprModel::Call(
                Box::new(callee.model()),
                paren@,
                Seq::new(
                    arguments@.len(),
                    |i: int|
                        if 0 <= i < arguments@.len() {
                            arguments@[i].model()
                        } else {
                            arbitrary()
                        },
                ),
            ),
            Expr::Grouping(inner) => ExprModel::Grouping(Box::new(inner.model())),
            Expr::Literal(value) => ExprModel::Literal(value@),
            Expr::Logical(left, operator, right) => ExprModel::Logical(
                Box::new(left.model()),
                operator@,
                Box::new(right.model()),
            ),
            Expr::Unary(operator, right) => ExprModel::Unary(operator@, Box::new(right.model())),
            Expr::Variable(name) => ExprModel::Variable(name@),
        }
    }

    /// The arguments of a call have the models that `expr_models` lists.
    pub proof fn lemma_call_arguments(&self)
        requires
            self is Call,
        ensures
            self@->Call_2 == expr_models(self->Call_2@),
    {
        assert(self@->Call_2 =~= expr_models(self->Call_2@));
    }
}

impl View for Expr {
    type V = ExprModel;

    open spec fn view(&self) -> ExprModel {
        self.model()
    }
}

/// Copies a list of expressions.
pub fn clone_exprs(exprs: &Vec<Expr>) -> (copies: Vec<Expr>)
    ensures
        expr_models(copies@) == expr_models(exprs@),
    decreases exprs,
{
    let mut copies: Vec<Expr> = Vec::new();
    let mut i: usize = 0;
    while i < exprs.len()
        invariant
            i <= exprs@.len(),
            copies@.len() == i,
            forall|j: int| 0 <= j < i ==> copies@[j]@ == exprs@[j]@,
        decreases exprs@.len() - i,
    {
        copies.push(exprs[i].clone());
        i += 1;
    }
    assert(expr_models(copies@) =~= expr_models(exprs@));
    copies
}

impl Clone for Expr {
    fn clone(&self) -> (copy: Self)
        ensures
            copy@ == self@,
        decreases self,
    {
        match self {
            Expr::Assign(name, value) => Expr::Assign(name.clone(), Box::new((**value).clone())),
            Expr::Binary(left, operator, right) => Expr::Binary(
                Box::new((**left).clone()),
                operator.clone(),
                Box::new((**right).clone()),
            ),
            Expr::Call(callee, paren, arguments) => {
                let copy = Expr::Call(
                    Box::new((**callee).clone()),
                    paren.clone(),
                    clone_exprs(arguments),
                );
                proof {
                    self.lemma_call_arguments();
                    copy.lemma_call_arguments();
                }
                copy
            },
            Expr::Grouping(inner) => Expr::Grouping(Box::new((**inner).clone())),
            Expr::Literal(value) => Expr::Literal(value.clone()),
            Expr::Logical(left, operator, right) => Expr::Logical(
                Box::new((**left).clone()),
                operator.clone(),
                Box::new((**right).clone()),
            ),
            Expr::Unary(operator, right) => Expr::Unary(operator.clone(), Box::new((**right).clone())),
            Expr::Variable(name) => Expr::Variable(name.clone()),
        }
    }
}

} // verus!
