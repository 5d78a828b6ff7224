//! Statements: the part of the tree that is executed for its effect.

use vstd::prelude::*;
use crate::expr::{Expr, ExprModel};
use crate::scanner::{Token, TokenModel};

verus! {

/// One method per statement form. `Stmt::accept` hands a statement to the
/// method that belongs to its form.
pub trait Visitor<T> {
    /// What a visit may do: `self` is the visitor after it was handed
    /// `stmt`, `before` the visitor as it was, `result` what the visit
    /// returned. A visitor that does not say is free to do anything.
    open spec fn visited(&self, before: &Self, stmt: StmtModel, result: T) -> bool {
        true
    }

    fn visit_block_stmt(&mut self, stmt: &Block) -> (result: T)
        ensures
            final(self).visited(old(self), stmt@, result),
    ;

    fn visit_expression_stmt(&mut self, stmt: &Expression) -> (result: T)
        ensures
            final(self).visited(old(self), stmt@, result),
    ;

    fn visit_function_stmt(&mut self, stmt: &Function) -> (result: T)
        ensures
            final(self).visited(old(self), stmt@, result),
    ;

    fn visit_if_stmt(&mut self, stmt: &If) -> (result: T)
        ensures
            final(self).visited(old(self), stmt@, result),
    ;

    fn visit_print_stmt(&mut self, stmt: &Print) -> (result: T)
        ensures
            final(self).visited(old(self), stmt@, result),
    ;

    fn visit_var_stmt(&mut self, stmt: &Var) -> (result: T)
        ensures
            final(self).visited(old(self), stmt@, result),
    ;

    fn visit_while_stmt(&mut self, stmt: &While) -> (result: T)
        ensures
            final(self).visited(old(self), stmt@, result),
    ;
}

/// A statement, one variant per construct.
#[derive(Debug)]
pub enum Stmt {
    Block(Block),
    Expression(Expression),
    Function(Function),
    If(If),
    Print(Print),
    Var(Var),
    While(While),
}

/// `{ statements }`: the statements run in order in a scope of their own.
#[derive(Debug)]
pub struct Block {
    pub statements: Vec<Stmt>,
}

/// An expression evaluated for its effect.
#[derive(Debug)]
pub struct Expression {
    pub expression: Expr,
}

/// `fun name(params) { body }`: a declaration; nothing runs until a call.
#[derive(Debug)]
pub struct Function {
    pub name: Token,
    pub params: Vec<Token>,
    pub body: Vec<Stmt>,
}

/// `if (condition) then_branch else else_branch`
#[derive(Debug)]
pub struct If {
    pub condition: Expr,
    pub then_branch: Box<Stmt>,
    pub else_branch: Option<Box<Stmt>>,
}

/// `print expression;`
#[derive(Debug)]
pub struct Print {
    pub expression: Expr,
}

/// `var name = initializer;`
#[derive(Debug)]
pub struct Var {
    pub name: Token,
    pub initializer: Option<Expr>,
}

/// `while (condition) body`
#[derive(Debug)]
pub struct While {
    pub condition: Expr,
    pub body: Box<Stmt>,
}

/// A function declaration as a mathematical value.
pub ghost struct FunctionModel {
    pub name: TokenModel,
    pub params: Seq<TokenModel>,
    pub body: Seq<StmtModel>,
}

/// A statement as a mathematical value.
pub ghost enum StmtModel {
    Block(Seq<StmtModel>),
    Expression(ExprModel),
    Function(FunctionModel),
    If(ExprModel, Box<StmtModel>, Option<Box<StmtModel>>),
    Print(ExprModel),
    Var(TokenModel, Option<ExprModel>),
    While(ExprModel, Box<StmtModel>),
}

/// The models of a list of statements, in order.
pub open spec fn stmt_models(stmts: Seq<Stmt>) -> Seq<StmtModel> {
    Seq::new(stmts.len(), |i: int| stmts[i]@)
}

/// The models of a list of tokens, in order.
pub open spec fn token_models(tokens: Seq<Token>) -> Seq<TokenModel> {
    Seq::new(tokens.len(), |i: int| tokens[i]@)
}

impl Stmt {
    /// The statement as a mathematical value.
    pub open spec fn model(&self) -> StmtModel
        decreases self,
    {
        match self {
            Stmt::Block(block) => StmtModel::Block(
                Seq::new(
                    block.statements@.len(),
                    |i: int|
                        if 0 <= i < block.statements@.len() {
                            block.statements@[i].model()
                        } else {
                            arbitrary()
                        },
                ),
            ),
            Stmt::Expression(stmt) => StmtModel::Expression(stmt.expression@),
            Stmt::Function(function) => StmtModel::Function(
                FunctionModel {
                    name: function.name@,
                    params: token_models(function.params@),
                    body: Seq::new(
                        function.body@.len(),
                        |i: int|
                            if 0 <= i < function.body@.len() {
                                function.body@[i].model()
                            } else {
                                arbitrary()
                            },
                    ),
                },
            ),
            Stmt::If(stmt) => StmtModel::If(
                stmt.condition@,
                Box::new(stmt.then_branch.model()),
                match stmt.else_branch {
                    Some(branch) => Some(Box::new(branch.model())),
                    None => None,
                },
            ),
            Stmt::Print(stmt) => StmtModel::Print(stmt.expression@),
            Stmt::Var(stmt) => StmtModel::Var(
                stmt.name@,
                match stmt.initializer {
                    Some(initializer) => Some(initializer@),
                    None => None,
                },
            ),
            Stmt::While(stmt) => StmtModel::While(stmt.condition@, Box::new(stmt.body.model())),
        }
    }

    /// Hands the statement to the visitor's method for its form, and
    /// returns what that method returns.
    pub fn accept<T>(&self, visitor: &mut impl Visitor<T>) -> (result: T)
        ensures
            final(visitor).visited(old(visitor), self@, result),
    {
        proof {
            lemma_stmt_model(self);
        }
        match self {
            Stmt::Block(b) => visitor.visit_block_stmt(b),
            Stmt::Expression(e) => visitor.visit_expression_stmt(e),
            Stmt::Function(f) => visitor.visit_function_stmt(f),
            Stmt::If(i) => visitor.visit_if_stmt(i),
            Stmt::Print(p) => visitor.visit_print_stmt(p),
            Stmt::Var(v) => visitor.visit_var_stmt(v),
            Stmt::While(w) => visitor.visit_while_stmt(w),
        }
    }
}

impl View for Stmt {
    type V = StmtModel;

    open spec fn view(&self) -> StmtModel {
        self.model()
    }
}

impl View for Block {
    type V = StmtModel;

    open spec fn view(&self) -> StmtModel {
        StmtModel::Block(stmt_models(self.statements@))
    }
}

impl View for Expression {
    type V = StmtModel;

    open spec fn view(&self) -> StmtModel {
        StmtModel::Expression(self.expression@)
    }
}

impl View for Function {
    type V = StmtModel;

    open spec fn view(&self) -> StmtModel {
        StmtModel::Function(self.declared())
    }
}

impl Function {
    /// The declaration as a mathematical value.
    pub open spec fn declared(&self) -> FunctionModel {
        FunctionModel {
            name: self.name@,
            params: token_models(self.params@),
            body: stmt_models(self.body@),
        }
    }
}

impl View for If {
    type V = StmtModel;

    open spec fn view(&self) -> StmtModel {
        StmtModel::If(
            self.condition@,
            Box::new(self.then_branch@),
            match self.else_branch {
                Some(branch) => Some(Box::new(branch@)),
                None => None,
            },
        )
    }
}

impl View for Print {
    type V = StmtModel;

    open spec fn view(&self) -> StmtModel {
        StmtModel::Print(self.expression@)
    }
}

impl View for Var {
    type V = StmtModel;

    open spec fn view(&self) -> StmtModel {
        StmtModel::Var(
            self.name@,
            match self.initializer {
                Some(initializer) => Some(initializer@),
                None => None,
            },
        )
    }
}

impl View for While {
    type V = StmtModel;

    open spec fn view(&self) -> StmtModel {
        StmtModel::While(self.condition@, Box::new(self.body@))
    }
}

/// A statement has the model of the construct it wraps.
pub proof fn lemma_stmt_model(stmt: &Stmt)
    ensures
        stmt@ == match stmt {
            Stmt::Block(inner) => inner@,
            Stmt::Expression(inner) => inner@,
            Stmt::Function(inner) => inner@,
            Stmt::If(inner) => inner@,
            Stmt::Print(inner) => inner@,
            Stmt::Var(inner) => inner@,
            Stmt::While(inner) => inner@,
        },
{
    match stmt {
        Stmt::Block(inner) => {
            assert(stmt@->Block_0 =~= stmt_models(inner.statements@));
        },
        Stmt::Function(inner) => {
            assert(stmt@->Function_0.body =~= stmt_models(inner.body@));
        },
        _ => {},
    }
}


/// Copies a list of tokens.
pub fn clone_tokens(tokens: &Vec<Token>) -> (copies: Vec<Token>)
    ensures
        token_models(copies@) == token_models(tokens@),
{
    let mut copies: Vec<Token> = Vec::new();
    let mut i: usize = 0;
    while i < tokens.len()
        invariant
            i <= tokens@.len(),
            copies@.len() == i,
            forall|j: int| 0 <= j < i ==> copies@[j]@ == tokens@[j]@,
        decreases tokens@.len() - i,
    {
        copies.push(tokens[i].clone());
        i += 1;
    }
    assert(token_models(copies@) =~= token_models(tokens@));
    copies
}

/// Copies a list of statements.
pub fn clone_stmts(stmts: &Vec<Stmt>) -> (copies: Vec<Stmt>)
    ensures
        stmt_models(copies@) == stmt_models(stmts@),
    decreases stmts,
{
    let mut copies: Vec<Stmt> = Vec::new();
    let mut i: usize = 0;
    while i < stmts.len()
        invariant
            i <= stmts@.len(),
            copies@.len() == i,
            forall|j: int| 0 <= j < i ==> copies@[j]@ == stmts@[j]@,
        decreases stmts@.len() - i,
    {
        copies.push(stmts[i].clone());
        i += 1;
    }
    assert(stmt_models(copies@) =~= stmt_models(stmts@));
    copies
}

impl Clone for Function {
    fn clone(&self) -> (copy: Self)
        ensures
            copy@ == self@,
        decreases self,
    {
        Function {
            name: self.name.clone(),
            params: clone_tokens(&self.params),
            body: clone_stmts(&self.body),
        }
    }
}

impl Clone for Block {
    fn clone(&self) -> (copy: Self)
        ensures
            copy@ == self@,
        decreases self,
    {
        Block { statements: clone_stmts(&self.statements) }
    }
}

impl Clone for Expression {
    fn clone(&self) -> (copy: Self)
        ensures
            copy@ == self@,
    {
        Expression { expression: self.expression.clone() }
    }
}

impl Clone for If {
    fn clone(&self) -> (copy: Self)
        ensures
            copy@ == self@,
        decreases self,
    {
        If {
            condition: self.condition.clone(),
            then_branch: Box::new((*self.then_branch).clone()),
            else_branch: match &self.else_branch {
                Some(branch) => Some(Box::new((**branch).clone())),
                None => None,
            },
        }
    }
}

impl Clone for Print {
    fn clone(&self) -> (copy: Self)
        ensures
            copy@ == self@,
    {
        Print { expression: self.expression.clone() }
    }
}

impl Clone for Var {
    fn clone(&self) -> (copy: Self)
        ensures
            copy@ == self@,
    {
        Var {
            name: self.name.clone(),
            initializer: match &self.initializer {
                Some(initializer) => Some(initializer.clone()),
                None => None,
            },
        }
    }
}

impl Clone for While {
    fn clone(&self) -> (copy: Self)
        ensures
            copy@ == self@,
        decreases self,
    {
        While { condition: self.condition.clone(), body: Box::new((*self.body).clone()) }
    }
}

impl Clone for Stmt {
    fn clone(&self) -> (copy: Self)
        ensures
            copy@ == self@,
        decreases self,
    {
        let copy = match self {
            Stmt::Block(block) => Stmt::Block(block.clone()),
            Stmt::Expression(stmt) => Stmt::Expression(stmt.clone()),
            Stmt::Function(function) => Stmt::Function(function.clone()),
            Stmt::If(stmt) => Stmt::If(stmt.clone()),
            Stmt::Print(stmt) => Stmt::Print(stmt.clone()),
            Stmt::Var(stmt) => Stmt::Var(stmt.clone()),
            Stmt::While(stmt) => Stmt::While(stmt.clone()),
        };
        proof {
            lemma_stmt_model(self);
            lemma_stmt_model(&copy);
        }
        copy
    }
}

} // verus!
