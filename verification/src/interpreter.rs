//! The evaluator: it walks the statement tree one step at a time.
//!
//! The interpreter keeps the work it still has to do on a stack of its own,
//! so that a step always ends, whatever the program: the host takes steps
//! until nothing is left, and in between does what only it can do, which is
//! to print, to add and multiply doubles, and to run builtins.

use vstd::prelude::*;
use crate::environment::{Environment, Scope, scope_models};
use crate::expr::{expr_models, Expr, Literal};
use crate::machine::{
    ActionModel, FrameModel, MachineModel, Step, advance, begin, binary, bound, called, evaluate,
    gather, initial, invoke, resumed, run, step, unary,
};
use crate::number;
use crate::object::{Object, Rendered, arity_of, callable, object_models};
use crate::runtime_error::{ErrorKind, RuntimeError};
use crate::scanner::{Token, TokenKind};
use crate::stmt::{
    Block, Expression, Function, If, Print, Stmt, StmtModel, Var, Visitor, While, clone_stmts,
    stmt_models, token_models,
};

verus! {

/// A piece of work that is still to do.
enum Frame {
    Execute(Stmt),
    Sequence(Vec<Stmt>, usize),
    LeaveScope,
    Return(Vec<Scope>),
    Evaluate(Expr),
    Print,
    Define(Token),
    Branch(Stmt, Option<Stmt>),
    Loop(Expr, Stmt),
    Assign(Token),
    Unary(Token),
    Right(Token, Expr),
    Apply(Token, Object),
    Decide(Token, Expr),
    Call(Token, Option<Object>, Vec<Object>, Vec<Expr>),
}

impl View for Frame {
    type V = FrameModel;

    closed spec fn view(&self) -> FrameModel {
        match self {
            Frame::Execute(stmt) => FrameModel::Execute(stmt@),
            Frame::Sequence(statements, next) => FrameModel::Sequence(
                stmt_models(statements@),
                *next as nat,
            ),
            Frame::LeaveScope => FrameModel::LeaveScope,
            Frame::Return(caller) => FrameModel::Return(scope_models(caller@)),
            Frame::Evaluate(expr) => FrameModel::Evaluate(expr@),
            Frame::Print => FrameModel::Print,
            Frame::Define(name) => FrameModel::Define(name@),
            Frame::Branch(then_branch, else_branch) => FrameModel::Branch(
                then_branch@,
                match else_branch {
                    Some(branch) => Some(branch@),
                    None => None,
                },
            ),
            Frame::Loop(condition, body) => FrameModel::Loop(condition@, body@),
            Frame::Assign(name) => FrameModel::Assign(name@),
            Frame::Unary(operator) => FrameModel::Unary(operator@),
            Frame::Right(operator, right) => FrameModel::Right(operator@, right@),
            Frame::Apply(operator, left) => FrameModel::Apply(operator@, left@),
            Frame::Decide(operator, right) => FrameModel::Decide(operator@, right@),
            Frame::Call(paren, callee, arguments, pending) => FrameModel::Call(
                paren@,
                match callee {
                    Some(held) => Some(held@),
                    None => None,
                },
                object_models(arguments@),
                expr_models(pending@),
            ),
        }
    }
}

/// The models of a stack of frames, in order.
spec fn frame_models(frames: Seq<Frame>) -> Seq<FrameModel> {
    Seq::new(frames.len(), |i: int| frames[i]@)
}

/// What the host has to do after a step.
#[derive(Debug)]
pub enum Action {
    /// Nothing: take the next step.
    Continue,
    /// Nothing is left to do.
    Done,
    /// The interpreter waits for a value and does nothing until `resume`.
    Suspended,
    /// Write a line: the text, or the number in decimal.
    Print(Rendered),
    /// Compute `left operator right` on doubles, the operator one of
    /// `Minus`, `Plus`, `Slash`, `Star`, and resume with the number.
    Arithmetic(TokenKind, u64, u64),
    /// Run the builtin with this index on the arguments and resume with
    /// what it returns.
    CallNative(usize, Vec<Object>),
    /// Report a failure. The work that was pending is gone.
    Failed(RuntimeError),
}

impl View for Action {
    type V = ActionModel;

    open spec fn view(&self) -> ActionModel {
        match self {
            Action::Continue => ActionModel::Continue,
            Action::Done => ActionModel::Done,
            Action::Suspended => ActionModel::Suspended,
            Action::Print(text) => ActionModel::Print(text@),
            Action::Arithmetic(operator, left, right) => ActionModel::Arithmetic(
                *operator,
                *left,
                *right,
            ),
            Action::CallNative(native, arguments) => ActionModel::CallNative(
                *native,
                object_models(arguments@),
            ),
            Action::Failed(error) => ActionModel::Failed(error@),
        }
    }
}

/// The evaluator's state.
pub struct Interpreter {
    environment: Environment,
    control: Vec<Frame>,
    value: Object,
    awaiting: bool,
}

impl View for Interpreter {
    type V = MachineModel;

    closed spec fn view(&self) -> MachineModel {
        MachineModel {
            scopes: self.environment@,
            control: frame_models(self.control@),
            value: self.value@,
            awaiting: self.awaiting,
        }
    }
}

impl Interpreter {
    /// An interpreter with nothing declared and nothing to do.
    pub fn new() -> (interpreter: Self)
        ensures
            interpreter@ == initial(),
    {
        let interpreter = Interpreter {
            environment: Environment::new(),
            control: Vec::new(),
            value: Object::Nil,
            awaiting: false,
        };
        assert(interpreter@.control =~= Seq::empty());
        interpreter
    }

    /// The global scope is always in reach of an interpreter.
    pub proof fn lemma_valid(&self)
        ensures
            self@.valid(),
    {
        self.environment.lemma_rooted();
    }

    /// Declares `name` in the innermost scope in reach. Before a program
    /// runs that is the global scope: this is how the host registers its
    /// builtins.
    pub fn define(&mut self, name: &[u8], value: Object)
        ensures
            final(self)@ == old(self)@.with_scopes(
                crate::environment::defined(old(self)@.scopes, name@, value@),
            ),
    {
        self.environment.define(name, value);
    }

    /// Hands the interpreter statements to run, in order, in the scopes in
    /// reach. They run after the work that is already pending is done.
    pub fn interpret(&mut self, statements: Vec<Stmt>)
        ensures
            final(self)@ == (MachineModel {
                control: seq![FrameModel::Sequence(stmt_models(statements@), 0)] + old(
                    self,
                )@.control,
                ..old(self)@
            }),
    {
        self.control.insert(0, Frame::Sequence(statements, 0));
        assert(self@.control =~= seq![FrameModel::Sequence(stmt_models(statements@), 0)] + old(
            self,
        )@.control);
    }

    /// Whether a step would find nothing to do.
    pub fn is_done(&self) -> (done: bool)
        ensures
            done == (!self@.awaiting && self@.control.len() == 0),
    {
        !self.awaiting && self.control.len() == 0
    }

    /// Whether the interpreter waits for `resume`.
    pub fn is_waiting(&self) -> (waiting: bool)
        ensures
            waiting == self@.awaiting,
    {
        self.awaiting
    }

    /// Takes one step.
    pub fn step(&mut self) -> (action: Action)
        ensures
            (Step { machine: final(self)@, action: action@ }) == step(old(self)@),
    {
        if self.awaiting {
            return Action::Suspended;
        }
        match self.control.pop() {
            None => Action::Done,
            Some(frame) => {
                assert(self@.control =~= old(self)@.control.drop_last());
                assert(frame@ == old(self)@.control.last());
                self.perform(frame)
            },
        }
    }

    /// Takes steps until one asks something of the host, says that the
    /// interpreter is done, or fails, and at most `budget` of them. The
    /// action is `Continue` where the budget ran out first.
    pub fn run(&mut self, budget: usize) -> (action: Action)
        ensures
            (Step { machine: final(self)@, action: action@ }) == advance(old(self)@, budget as nat),
    {
        let mut left = budget;
        while left > 0
            invariant
                advance(self@, left as nat) == advance(old(self)@, budget as nat),
            decreases left,
        {
            let action = self.step();
            match action {
                Action::Continue => {},
                _ => {
                    return action;
                },
            }
            left -= 1;
        }
        Action::Continue
    }

    /// Hands a waiting interpreter the value it asked for: the result of an
    /// arithmetic operation, as a number, or what a builtin returned.
    pub fn resume(&mut self, value: Object)
        ensures
            final(self)@ == resumed(old(self)@, value@),
    {
        if self.awaiting {
            self.value = value;
            self.awaiting = false;
        }
    }

    /// Starts a block: its statements run in order in a scope of their own,
    /// which is left when they are done.
    pub fn execute_block(&mut self, statements: Vec<Stmt>)
        ensures
            final(self)@ == begin(StmtModel::Block(stmt_models(statements@)), old(self)@),
    {
        self.environment.push_scope();
        self.push(Frame::LeaveScope);
        self.push(Frame::Sequence(statements, 0));
    }

    fn push(&mut self, frame: Frame)
        ensures
            final(self)@ == old(self)@.push(frame@),
    {
        self.control.push(frame);
        assert(self@.control =~= old(self)@.control.push(frame@));
    }

    fn fail(&mut self, error: RuntimeError) -> (action: Action)
        ensures
            (Step { machine: final(self)@, action: action@ }) == old(self)@.fail(
                error@.kind,
                error@.token,
            ),
    {
        self.control.clear();
        let _ = self.environment.suspend();
        self.value = Object::Nil;
        self.awaiting = false;
        assert(self@.control =~= Seq::empty());
        Action::Failed(error)
    }

    fn perform(&mut self, frame: Frame) -> (action: Action)
        ensures
            (Step { machine: final(self)@, action: action@ }) == run(frame@, old(self)@),
    {
        match frame {
            Frame::Execute(stmt) => {
                stmt.accept(self);
                Action::Continue
            },
            Frame::Sequence(statements, next) => {
                if next < statements.len() {
                    let stmt = statements[next].clone();
                    self.push(Frame::Sequence(statements, next + 1));
                    self.push(Frame::Execute(stmt));
                }
                Action::Continue
            },
            Frame::LeaveScope => {
                self.environment.pop_scope();
                Action::Continue
            },
            Frame::Return(caller) => {
                self.environment.restore(caller);
                self.value = Object::Nil;
                Action::Continue
            },
            Frame::Evaluate(expr) => self.evaluate(expr),
            Frame::Print => Action::Print(self.value.rendered()),
            Frame::Define(name) => {
                let value = self.value.clone();
                self.environment.define(name.lexeme.as_slice(), value);
                Action::Continue
            },
            Frame::Branch(then_branch, else_branch) => {
                if self.value.as_bool() {
                    self.push(Frame::Execute(then_branch));
                } else {
                    match else_branch {
                        Some(branch) => {
                            self.push(Frame::Execute(branch));
                        },
                        None => {},
                    }
                }
                Action::Continue
            },
            Frame::Loop(condition, body) => {
                if self.value.as_bool() {
                    let again = condition.clone();
                    let first = body.clone();
                    self.push(Frame::Loop(condition, body));
                    self.push(Frame::Evaluate(again));
                    self.push(Frame::Execute(first));
                }
                Action::Continue
            },
            Frame::Assign(name) => {
                let value = self.value.clone();
                match self.environment.assign(&name, value) {
                    Ok(()) => Action::Continue,
                    Err(error) => self.fail(error),
                }
            },
            Frame::Unary(operator) => self.unary(operator),
            Frame::Right(operator, right) => {
                let left = self.value.clone();
                self.push(Frame::Apply(operator, left));
                self.push(Frame::Evaluate(right));
                Action::Continue
            },
            Frame::Apply(operator, left) => self.binary(operator, left),
            Frame::Decide(operator, right) => {
                let is_or = match operator.kind {
                    TokenKind::Or => true,
                    _ => false,
                };
                if is_or != self.value.as_bool() {
                    self.push(Frame::Evaluate(right));
                }
                Action::Continue
            },
            Frame::Call(paren, callee, arguments, pending) => self.gather(
                paren,
                callee,
                arguments,
                pending,
            ),
        }
    }

    fn evaluate(&mut self, expr: Expr) -> (action: Action)
        ensures
            (Step { machine: final(self)@, action: action@ }) == evaluate(expr@, old(self)@),
    {
        proof {
            if expr is Call {
                expr.lemma_call_arguments();
            }
        }
        match expr {
            Expr::Assign(name, value) => {
                self.push(Frame::Assign(name));
                self.push(Frame::Evaluate(*value));
                Action::Continue
            },
            Expr::Binary(left, operator, right) => {
                self.push(Frame::Right(operator, *right));
                self.push(Frame::Evaluate(*left));
                Action::Continue
            },
            Expr::Call(callee, paren, arguments) => {
                let none: Vec<Object> = Vec::new();
                assert(object_models(none@) =~= Seq::empty());
                self.push(Frame::Call(paren, None, none, arguments));
                self.push(Frame::Evaluate(*callee));
                Action::Continue
            },
            Expr::Grouping(inner) => {
                self.push(Frame::Evaluate(*inner));
                Action::Continue
            },
            Expr::Literal(literal) => {
                self.value = match literal {
                    Literal::Nil => Object::Nil,
                    Literal::Bool(value) => Object::Bool(value),
                    Literal::Number(bits) => Object::Number(bits),
                    Literal::String(text) => Object::String(text),
                };
                Action::Continue
            },
            Expr::Logical(left, operator, right) => {
                self.push(Frame::Decide(operator, *right));
                self.push(Frame::Evaluate(*left));
                Action::Continue
            },
            Expr::Unary(operator, right) => {
                self.push(Frame::Unary(operator));
                self.push(Frame::Evaluate(*right));
                Action::Continue
            },
            Expr::Variable(name) => match self.environment.get(&name) {
                Ok(value) => {
                    self.value = value;
                    Action::Continue
                },
                Err(error) => self.fail(error),
            },
        }
    }

    fn unary(&mut self, operator: Token) -> (action: Action)
        ensures
            (Step { machine: final(self)@, action: action@ }) == unary(operator@, old(self)@),
    {
        match operator.kind {
            TokenKind::Minus => match &self.value {
                Object::Number(bits) => {
                    self.value = Object::Number(number::negate(*bits));
                    Action::Continue
                },
                _ => self.fail(RuntimeError::new(ErrorKind::TypeMismatch, operator)),
            },
            TokenKind::Bang => {
                self.value = Object::Bool(!self.value.as_bool());
                Action::Continue
            },
            _ => self.fail(RuntimeError::new(ErrorKind::TypeMismatch, operator)),
        }
    }

    fn binary(&mut self, operator: Token, left: Object) -> (action: Action)
        ensures
            (Step { machine: final(self)@, action: action@ }) == binary(
                operator@,
                left@,
                old(self)@,
            ),
    {
        match operator.kind {
            TokenKind::Minus | TokenKind::Plus | TokenKind::Slash | TokenKind::Star => match (
                &left,
                &self.value,
            ) {
                (Object::Number(l), Object::Number(r)) => {
                    let action = Action::Arithmetic(operator.kind, *l, *r);
                    self.awaiting = true;
                    action
                },
                _ => self.fail(RuntimeError::new(ErrorKind::TypeMismatch, operator)),
            },
            TokenKind::Greater | TokenKind::GreaterEqual | TokenKind::Less | TokenKind::LessEqual => match (
                &left,
                &self.value,
            ) {
                (Object::Number(l), Object::Number(r)) => {
                    let holds = match operator.kind {
                        TokenKind::Greater => number::less(*r, *l),
                        TokenKind::GreaterEqual => number::less_equal(*r, *l),
                        TokenKind::Less => number::less(*l, *r),
                        _ => number::less_equal(*l, *r),
                    };
                    self.value = Object::Bool(holds);
                    Action::Continue
                },
                _ => self.fail(RuntimeError::new(ErrorKind::TypeMismatch, operator)),
            },
            TokenKind::EqualEqual => {
                self.value = Object::Bool(left == self.value);
                Action::Continue
            },
            TokenKind::BangEqual => {
                self.value = Object::Bool(!(left == self.value));
                Action::Continue
            },
            _ => self.fail(RuntimeError::new(ErrorKind::TypeMismatch, operator)),
        }
    }

    fn gather(
        &mut self,
        paren: Token,
        callee: Option<Object>,
        arguments: Vec<Object>,
        pending: Vec<Expr>,
    ) -> (action: Action)
        ensures
            (Step { machine: final(self)@, action: action@ }) == gather(
                paren@,
                match callee {
                    Some(held) => Some(held@),
                    None => None,
                },
                object_models(arguments@),
                expr_models(pending@),
                old(self)@,
            ),
    {
        let last = self.value.clone();
        let mut ready = arguments;
        let target = match callee {
            Some(held) => {
                ready.push(last);
                assert(object_models(ready@) =~= object_models(arguments@).push(last@));
                held
            },
            None => last,
        };
        if ready.len() < pending.len() {
            let next = pending[ready.len()].clone();
            self.push(Frame::Call(paren, Some(target), ready, pending));
            self.push(Frame::Evaluate(next));
            Action::Continue
        } else {
            self.invoke(paren, target, ready)
        }
    }

    fn invoke(&mut self, paren: Token, callee: Object, arguments: Vec<Object>) -> (action: Action)
        ensures
            (Step { machine: final(self)@, action: action@ }) == invoke(
                paren@,
                callee@,
                object_models(arguments@),
                old(self)@,
            ),
    {
        if !callee.is_callable() {
            self.fail(RuntimeError::new(ErrorKind::NotCallable, paren))
        } else if arguments.len() != callee.arity() {
            self.fail(RuntimeError::new(ErrorKind::ArityMismatch, paren))
        } else {
            callee.call(self, arguments)
        }
    }
}

impl Object {
    /// Enters a callable. That the value can be called, and that it takes
    /// as many arguments as are given, is for the caller to see to; what is
    /// asked for here is only that no parameter is left without an
    /// argument. A builtin is left to the host, which resumes the
    /// interpreter with the result. A function gets a scope of its own
    /// inside the global scope, with its parameters bound in order, and its
    /// body becomes the work to do; the call then yields `nil`.
    pub fn call(&self, interpreter: &mut Interpreter, arguments: Vec<Object>) -> (action: Action)
        requires
            callable(self@),
            self@ is Function ==> arguments@.len() >= arity_of(self@),
        ensures
            (Step { machine: final(interpreter)@, action: action@ }) == called(
                self@,
                object_models(arguments@),
                old(interpreter)@,
            ),
    {
        match self {
            Object::BuiltinFunction(_, native) => {
                interpreter.awaiting = true;
                Action::CallNative(*native, arguments)
            },
            Object::Function(function) => {
                let params = &function.declaration.params;
                let caller = interpreter.environment.suspend();
                interpreter.environment.push_scope();
                let ghost names = token_models(params@);
                let ghost values = object_models(arguments@);
                let ghost globals = old(interpreter)@.scopes[0];
                let mut i: usize = 0;
                assert(interpreter.environment@ =~= seq![globals, bound(names, values, 0)]);
                while i < params.len()
                    invariant
                        i <= params@.len(),
                        params@.len() <= arguments@.len(),
                        names == token_models(params@),
                        values == object_models(arguments@),
                        interpreter.environment@ == seq![globals, bound(names, values, i as nat)],
                        interpreter.control == old(interpreter).control,
                        interpreter.value == old(interpreter).value,
                        interpreter.awaiting == old(interpreter).awaiting,
                    decreases params@.len() - i,
                {
                    interpreter.environment.define(
                        params[i].lexeme.as_slice(),
                        arguments[i].clone(),
                    );
                    i += 1;
                    assert(interpreter.environment@ =~= seq![
                        globals,
                        bound(names, values, i as nat),
                    ]);
                }
                interpreter.push(Frame::Return(caller));
                interpreter.push(Frame::Sequence(clone_stmts(&function.declaration.body), 0));
                Action::Continue
            },
            _ => Action::Continue,
        }
    }
}

/// To visit a statement is to start it: a declaration takes effect, and
/// every other form becomes work to do.
impl Visitor<()> for Interpreter {
    open spec fn visited(&self, before: &Self, stmt: StmtModel, result: ()) -> bool {
        self@ == begin(stmt, before@)
    }

    fn visit_block_stmt(&mut self, stmt: &Block) -> (result: ())
        ensures
            final(self)@ == begin(stmt@, old(self)@),
    {
        self.execute_block(clone_stmts(&stmt.statements));
    }

    fn visit_expression_stmt(&mut self, stmt: &Expression) -> (result: ())
        ensures
            final(self)@ == begin(stmt@, old(self)@),
    {
        self.push(Frame::Evaluate(stmt.expression.clone()));
    }

    fn visit_function_stmt(&mut self, stmt: &Function) -> (result: ())
        ensures
            final(self)@ == begin(stmt@, old(self)@),
    {
        self.environment.define(stmt.name.lexeme.as_slice(), Object::new_function(stmt.clone()));
    }

    fn visit_if_stmt(&mut self, stmt: &If) -> (result: ())
        ensures
            final(self)@ == begin(stmt@, old(self)@),
    {
        let then_branch = (*stmt.then_branch).clone();
        let else_branch = match &stmt.else_branch {
            Some(branch) => Some((**branch).clone()),
            None => None,
        };
        self.push(Frame::Branch(then_branch, else_branch));
        self.push(Frame::Evaluate(stmt.condition.clone()));
    }

    fn visit_print_stmt(&mut self, stmt: &Print) -> (result: ())
        ensures
            final(self)@ == begin(stmt@, old(self)@),
    {
        self.push(Frame::Print);
        self.push(Frame::Evaluate(stmt.expression.clone()));
    }

    fn visit_var_stmt(&mut self, stmt: &Var) -> (result: ())
        ensures
            final(self)@ == begin(stmt@, old(self)@),
    {
        match &stmt.initializer {
            Some(initializer) => {
                self.push(Frame::Define(stmt.name.clone()));
                self.push(Frame::Evaluate(initializer.clone()));
            },
            None => {
                self.environment.define(stmt.name.lexeme.as_slice(), Object::Nil);
            },
        }
    }

    fn visit_while_stmt(&mut self, stmt: &While) -> (result: ())
        ensures
            final(self)@ == begin(stmt@, old(self)@),
    {
        self.push(Frame::Loop(stmt.condition.clone(), (*stmt.body).clone()));
        self.push(Frame::Evaluate(stmt.condition.clone()));
    }
}

} // verus!
