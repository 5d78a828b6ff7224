//! What a program does, said by recursion over the tree, with a host that
//! answers at once.
//!
//! The interpreter takes steps and asks its host for sums, builtins and
//! output; here the same is said the other way round, as an evaluator
//! that descends into the tree and has a model of the host at hand. The
//! two are proved to agree in [`crate::simulation`]. A program need not
//! end, so the recursion carries fuel: one unit is spent on every call of
//! a function and on every turn of a loop.

use vstd::prelude::*;
use crate::environment::{assigned, defined, lookup, ScopeModel};
use crate::expr::ExprModel;
use crate::machine::{
    bound, compared, literal_value, resumed, step, ActionModel, MachineModel,
};
use crate::number;
use crate::object::{arity_of, callable, display, equals, truthy, ObjectModel, RenderedModel};
use crate::runtime_error::{ErrorKind, RuntimeErrorModel};
use crate::scanner::{TokenKind, TokenModel};
use crate::stmt::StmtModel;

verus! {

/// A host as a pair of functions: what it computes for an arithmetic
/// operator on two doubles, and what each builtin returns.
pub ghost struct HostModel {
    pub arithmetic: spec_fn(TokenKind, u64, u64) -> u64,
    pub native: spec_fn(usize, Seq<ObjectModel>) -> ObjectModel,
}

/// What a running program has at hand and has brought about: the scopes in
/// reach, the value computed last, and the lines printed so far.
pub ghost struct World {
    pub scopes: Seq<ScopeModel>,
    pub value: ObjectModel,
    pub output: Seq<RenderedModel>,
}

/// The end of an evaluation, with the number of steps that the interpreter
/// takes to get there. `Unfinished` says that the fuel ran out.
pub ghost enum Outcome {
    Done(World, nat),
    Failed(RuntimeErrorModel, World, nat),
    Unfinished,
}

impl World {
    pub open spec fn with_value(self, value: ObjectModel) -> World {
        World { value, ..self }
    }

    pub open spec fn with_scopes(self, scopes: Seq<ScopeModel>) -> World {
        World { scopes, ..self }
    }

    /// An evaluation that ends here in one step.
    pub open spec fn done(self) -> Outcome {
        Outcome::Done(self, 1)
    }

    /// An evaluation that fails here in one step.
    pub open spec fn failed(self, kind: ErrorKind, token: TokenModel) -> Outcome {
        Outcome::Failed(RuntimeErrorModel { kind, token }, self, 1)
    }
}

impl Outcome {
    /// The outcome after `steps` steps that came before it.
    pub open spec fn later(self, steps: nat) -> Outcome {
        match self {
            Outcome::Done(world, own) => Outcome::Done(world, own + steps),
            Outcome::Failed(error, world, own) => Outcome::Failed(error, world, own + steps),
            Outcome::Unfinished => Outcome::Unfinished,
        }
    }
}

/// The value of a prefix operator.
pub open spec fn prefix(operator: TokenModel, w: World) -> Outcome {
    match operator.kind {
        TokenKind::Minus => match w.value {
            ObjectModel::Number(bits) => w.with_value(
                ObjectModel::Number(number::opposite(bits)),
            ).done(),
            _ => w.failed(ErrorKind::TypeMismatch, operator),
        },
        TokenKind::Bang => w.with_value(ObjectModel::Bool(!truthy(w.value))).done(),
        _ => w.failed(ErrorKind::TypeMismatch, operator),
    }
}

/// The value of a binary operator on a left operand and the value at hand.
pub open spec fn infix(operator: TokenModel, left: ObjectModel, w: World, host: HostModel) -> Outcome {
    match operator.kind {
        TokenKind::Minus | TokenKind::Plus | TokenKind::Slash | TokenKind::Star => match (
            left,
            w.value,
        ) {
            (ObjectModel::Number(l), ObjectModel::Number(r)) => w.with_value(
                ObjectModel::Number((host.arithmetic)(operator.kind, l, r)),
            ).done(),
            _ => w.failed(ErrorKind::TypeMismatch, operator),
        },
        TokenKind::Greater | TokenKind::GreaterEqual | TokenKind::Less | TokenKind::LessEqual => match (
            left,
            w.value,
        ) {
            (ObjectModel::Number(l), ObjectModel::Number(r)) => w.with_value(
                ObjectModel::Bool(compared(operator.kind, l, r)),
            ).done(),
            _ => w.failed(ErrorKind::TypeMismatch, operator),
        },
        TokenKind::EqualEqual => w.with_value(ObjectModel::Bool(equals(left, w.value))).done(),
        TokenKind::BangEqual => w.with_value(ObjectModel::Bool(!equals(left, w.value))).done(),
        _ => w.failed(ErrorKind::TypeMismatch, operator),
    }
}

/// An expression: its value is the value at hand in the world it ends in.
pub open spec fn eval(expr: ExprModel, w: World, host: HostModel, fuel: nat) -> Outcome
    decreases fuel, 0nat, expr, 0nat,
{
    match expr {
        ExprModel::Assign(name, value) => match eval(*value, w, host, fuel) {
            Outcome::Done(then, n) => (match lookup(then.scopes, name.lexeme) {
                Some(_) => then.with_scopes(assigned(then.scopes, name.lexeme, then.value)).done(),
                None => then.failed(ErrorKind::UndefinedVariable, name),
            }).later(n + 1),
            other => other.later(1),
        },
        ExprModel::Binary(left, operator, right) => match eval(*left, w, host, fuel) {
            Outcome::Done(then, n) => match eval(*right, then, host, fuel) {
                Outcome::Done(last, k) => infix(operator, then.value, last, host).later(n + k + 2),
                other => other.later(n + 2),
            },
            other => other.later(1),
        },
        ExprModel::Call(callee, paren, arguments) => match eval(*callee, w, host, fuel) {
            Outcome::Done(then, n) => gathered(
                paren,
                None,
                Seq::empty(),
                arguments,
                then,
                host,
                fuel,
            ).later(n + 1),
            other => other.later(1),
        },
        ExprModel::Grouping(inner) => eval(*inner, w, host, fuel).later(1),
        ExprModel::Literal(literal) => w.with_value(literal_value(literal)).done(),
        ExprModel::Logical(left, operator, right) => match eval(*left, w, host, fuel) {
            Outcome::Done(then, n) => if (operator.kind == TokenKind::Or) == truthy(then.value) {
                Outcome::Done(then, n + 2)
            } else {
                eval(*right, then, host, fuel).later(n + 2)
            },
            other => other.later(1),
        },
        ExprModel::Unary(operator, right) => match eval(*right, w, host, fuel) {
            Outcome::Done(then, n) => prefix(operator, then).later(n + 1),
            other => other.later(1),
        },
        ExprModel::Variable(name) => match lookup(w.scopes, name.lexeme) {
            Some(value) => w.with_value(value).done(),
            None => w.failed(ErrorKind::UndefinedVariable, name),
        },
    }
}

/// A call in the making: the value at hand is the callee where none is
/// held yet, else the next argument; the arguments still pending are
/// evaluated in order, and then the call is made.
pub open spec fn gathered(
    paren: TokenModel,
    callee: Option<ObjectModel>,
    arguments: Seq<ObjectModel>,
    pending: Seq<ExprModel>,
    w: World,
    host: HostModel,
    fuel: nat,
) -> Outcome
    decreases fuel, 0nat, pending, pending.len() + 1 - arguments.len() - if callee is Some {
        1nat
    } else {
        0nat
    },
{
    let target = match callee {
        Some(held) => held,
        None => w.value,
    };
    let ready = match callee {
        Some(_) => arguments.push(w.value),
        None => arguments,
    };
    if ready.len() < pending.len() {
        match eval(pending[ready.len() as int], w, host, fuel) {
            Outcome::Done(then, n) => gathered(
                paren,
                Some(target),
                ready,
                pending,
                then,
                host,
                fuel,
            ).later(n + 1),
            other => other.later(1),
        }
    } else if !callable(target) {
        w.failed(ErrorKind::NotCallable, paren)
    } else if ready.len() != arity_of(target) {
        w.failed(ErrorKind::ArityMismatch, paren)
    } else {
        match target {
            ObjectModel::BuiltinFunction(_, native) => w.with_value((host.native)(native, ready)).done(),
            ObjectModel::Function(function) => if fuel == 0 {
                Outcome::Unfinished
            } else {
                let inside = w.with_scopes(
                    seq![w.scopes[0], bound(function.params, ready, function.params.len())],
                );
                match exec_all(function.body, 0, inside, host, (fuel - 1) as nat) {
                    Outcome::Done(then, n) => Outcome::Done(
                        then.with_scopes(
                            seq![then.scopes[0]] + w.scopes.subrange(1, w.scopes.len() as int),
                        ).with_value(ObjectModel::Nil),
                        n + 2,
                    ),
                    other => other.later(1),
                }
            },
            _ => w.done(),
        }
    }
}

/// A statement.
pub open spec fn exec(stmt: StmtModel, w: World, host: HostModel, fuel: nat) -> Outcome
    decreases fuel, 1nat, stmt, 1nat,
{
    match stmt {
        StmtModel::Block(statements) => match exec_all(
            statements,
            0,
            w.with_scopes(w.scopes.push(Map::empty())),
            host,
            fuel,
        ) {
            Outcome::Done(then, n) => Outcome::Done(
                then.with_scopes(then.scopes.drop_last()),
                n + 2,
            ),
            other => other.later(1),
        },
        StmtModel::Expression(expression) => eval(expression, w, host, fuel).later(1),
        StmtModel::Function(function) => w.with_scopes(
            defined(w.scopes, function.name.lexeme, ObjectModel::Function(function)),
        ).done(),
        StmtModel::If(condition, then_branch, else_branch) => match eval(
            condition,
            w,
            host,
            fuel,
        ) {
            Outcome::Done(then, n) => if truthy(then.value) {
                exec(*then_branch, then, host, fuel).later(n + 2)
            } else {
                match else_branch {
                    Some(branch) => exec(*branch, then, host, fuel).later(n + 2),
                    None => Outcome::Done(then, n + 2),
                }
            },
            other => other.later(1),
        },
        StmtModel::Print(expression) => match eval(expression, w, host, fuel) {
            Outcome::Done(then, n) => Outcome::Done(
                World { output: then.output.push(display(then.value)), ..then },
                n + 2,
            ),
            other => other.later(1),
        },
        StmtModel::Var(name, initializer) => match initializer {
            Some(expression) => match eval(expression, w, host, fuel) {
                Outcome::Done(then, n) => Outcome::Done(
                    then.with_scopes(defined(then.scopes, name.lexeme, then.value)),
                    n + 2,
                ),
                other => other.later(1),
            },
            None => w.with_scopes(defined(w.scopes, name.lexeme, ObjectModel::Nil)).done(),
        },
        StmtModel::While(_, _) => looped(stmt, w, host, fuel).later(1),
    }
}

/// The turns of a `while` statement: the condition, and while it comes out
/// truthy the body and the condition again.
pub open spec fn looped(stmt: StmtModel, w: World, host: HostModel, fuel: nat) -> Outcome
    decreases fuel, 1nat, stmt, 0nat,
{
    match stmt {
        StmtModel::While(condition, body) => match eval(condition, w, host, fuel) {
            Outcome::Done(then, n) => if truthy(then.value) {
                match exec(*body, then, host, fuel) {
                    Outcome::Done(after, k) => if fuel == 0 {
                        Outcome::Unfinished
                    } else {
                        looped(stmt, after, host, (fuel - 1) as nat).later(n + k + 1)
                    },
                    other => other.later(n + 1),
                }
            } else {
                Outcome::Done(then, n + 1)
            },
            other => other,
        },
        _ => Outcome::Done(w, 0),
    }
}

/// The statements of a list from index `next` on, in order.
pub open spec fn exec_all(
    statements: Seq<StmtModel>,
    next: nat,
    w: World,
    host: HostModel,
    fuel: nat,
) -> Outcome
    decreases fuel, 1nat, statements, statements.len() - next,
{
    if next < statements.len() {
        match exec(statements[next as int], w, host, fuel) {
            Outcome::Done(then, n) => exec_all(statements, next + 1, then, host, fuel).later(n + 1),
            other => other.later(1),
        }
    } else {
        w.done()
    }
}

/// The interpreter and its output after a number of steps with a host.
pub ghost struct Run {
    pub machine: MachineModel,
    pub output: Seq<RenderedModel>,
    pub failure: Option<RuntimeErrorModel>,
}

/// The interpreter run by a host for `count` steps: the host prints what
/// it is asked to print, answers what it is asked to compute, and stops at
/// a failure.
pub open spec fn hosted(m: MachineModel, output: Seq<RenderedModel>, host: HostModel, count: nat) -> Run
    decreases count,
{
    if count == 0 {
        Run { machine: m, output, failure: None }
    } else {
        let taken = step(m);
        match taken.action {
            ActionModel::Failed(error) => Run { machine: taken.machine, output, failure: Some(error) },
            ActionModel::Print(line) => hosted(
                taken.machine,
                output.push(line),
                host,
                (count - 1) as nat,
            ),
            ActionModel::Arithmetic(operator, left, right) => hosted(
                resumed(
                    taken.machine,
                    ObjectModel::Number((host.arithmetic)(operator, left, right)),
                ),
                output,
                host,
                (count - 1) as nat,
            ),
            ActionModel::CallNative(native, arguments) => hosted(
                resumed(taken.machine, (host.native)(native, arguments)),
                output,
                host,
                (count - 1) as nat,
            ),
            _ => hosted(taken.machine, output, host, (count - 1) as nat),
        }
    }
}

} // verus!
