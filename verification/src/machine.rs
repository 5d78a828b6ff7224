//! The evaluator as a transition system over mathematical values.
//!
//! A machine holds the scopes in reach, the work still to do, and the value
//! that was computed last. One step takes the next piece of work and does
//! it: it changes the machine and says what, if anything, the host has to
//! do before the next step. Nothing here runs; the interpreter is proved to
//! take exactly these steps.

use vstd::prelude::*;
use crate::environment::{assigned, defined, law_assign, law_scope_left, lookup, ScopeModel};
use crate::expr::{ExprModel, LiteralModel};
use crate::number;
use crate::object::{arity_of, callable, display, equals, truthy, ObjectModel, RenderedModel};
use crate::runtime_error::{ErrorKind, RuntimeErrorModel};
use crate::scanner::{TokenKind, TokenModel};
use crate::stmt::{FunctionModel, StmtModel};

verus! {

/// A piece of work that is still to do.
pub ghost enum FrameModel {
    /// Run a statement.
    Execute(StmtModel),
    /// Run the statements of a list from the given index on, in order.
    Sequence(Seq<StmtModel>, nat),
    /// Leave the innermost scope: the end of a block.
    LeaveScope,
    /// Leave a call: put the caller's scopes back in reach and yield `nil`.
    Return(Seq<ScopeModel>),
    /// Compute the value of an expression.
    Evaluate(ExprModel),
    /// Print the last value.
    Print,
    /// Declare a name with the last value.
    Define(TokenModel),
    /// Run one of two branches, by the truth of the last value.
    Branch(StmtModel, Option<StmtModel>),
    /// Run the body and test the condition again, while the last value is
    /// truthy.
    Loop(ExprModel, StmtModel),
    /// Assign the last value to a name.
    Assign(TokenModel),
    /// Apply a prefix operator to the last value.
    Unary(TokenModel),
    /// The last value is the left operand: compute the right one next.
    Right(TokenModel, ExprModel),
    /// Apply a binary operator to a left operand and the last value.
    Apply(TokenModel, ObjectModel),
    /// The last value is the left operand of `and` or `or`: keep it, or
    /// compute the right operand in its place.
    Decide(TokenModel, ExprModel),
    /// A call in the making: the last value is the callee where none is
    /// held yet, else the next argument.
    Call(TokenModel, Option<ObjectModel>, Seq<ObjectModel>, Seq<ExprModel>),
}

/// What the host has to do after a step.
pub ghost enum ActionModel {
    /// Nothing: take the next step.
    Continue,
    /// Nothing is left to do.
    Done,
    /// The machine waits for a value and does nothing until it is resumed.
    Suspended,
    /// Write a line.
    Print(RenderedModel),
    /// Compute `left operator right` on doubles and resume with the result.
    Arithmetic(TokenKind, u64, u64),
    /// Run a builtin on the arguments and resume with what it returns.
    CallNative(usize, Seq<ObjectModel>),
    /// Report a failure. The work that was pending is gone.
    Failed(RuntimeErrorModel),
}

/// The state of the evaluator.
pub ghost struct MachineModel {
    /// The scopes in reach, outermost first; the first is the global scope.
    pub scopes: Seq<ScopeModel>,
    /// The work to do; the last entry is next.
    pub control: Seq<FrameModel>,
    /// The value computed last.
    pub value: ObjectModel,
    /// Whether the machine waits to be resumed.
    pub awaiting: bool,
}

/// A step: the machine after it, and what the host has to do.
pub ghost struct Step {
    pub machine: MachineModel,
    pub action: ActionModel,
}

impl MachineModel {
    /// The global scope is always in reach.
    pub open spec fn valid(self) -> bool {
        self.scopes.len() >= 1
    }

    /// With one more piece of work, to be done first.
    pub open spec fn push(self, frame: FrameModel) -> MachineModel {
        MachineModel { control: self.control.push(frame), ..self }
    }

    /// With other scopes in reach.
    pub open spec fn with_scopes(self, scopes: Seq<ScopeModel>) -> MachineModel {
        MachineModel { scopes, ..self }
    }

    /// With another last value.
    pub open spec fn with_value(self, value: ObjectModel) -> MachineModel {
        MachineModel { value, ..self }
    }

    /// A step that asks nothing of the host.
    pub open spec fn proceed(self) -> Step {
        Step { machine: self, action: ActionModel::Continue }
    }

    /// A step that asks the host for a value.
    pub open spec fn request(self, action: ActionModel) -> Step {
        Step { machine: MachineModel { awaiting: true, ..self }, action }
    }

    /// A failing step. The pending work is dropped and every scope but the
    /// global one is left; what was declared or assigned before stays.
    pub open spec fn fail(self, kind: ErrorKind, token: TokenModel) -> Step {
        Step {
            machine: MachineModel {
                scopes: seq![self.scopes[0]],
                control: Seq::empty(),
                value: ObjectModel::Nil,
                awaiting: false,
            },
            action: ActionModel::Failed(RuntimeErrorModel { kind, token }),
        }
    }
}

/// A machine with nothing declared and nothing to do.
pub open spec fn initial() -> MachineModel {
    MachineModel {
        scopes: seq![Map::<Seq<u8>, ObjectModel>::empty()],
        control: Seq::empty(),
        value: ObjectModel::Nil,
        awaiting: false,
    }
}

/// The value of a literal.
pub open spec fn literal_value(literal: LiteralModel) -> ObjectModel {
    match literal {
        LiteralModel::Nil => ObjectModel::Nil,
        LiteralModel::Bool(value) => ObjectModel::Bool(value),
        LiteralModel::Number(bits) => ObjectModel::Number(bits),
        LiteralModel::String(text) => ObjectModel::String(text),
    }
}

/// Starting a statement. A declaration takes effect at once; every other
/// form leaves work to do: the expressions to evaluate, and what is to be
/// done with their values.
pub open spec fn begin(stmt: StmtModel, m: MachineModel) -> MachineModel {
    match stmt {
        StmtModel::Block(statements) => m.with_scopes(
            m.scopes.push(Map::<Seq<u8>, ObjectModel>::empty()),
        ).push(FrameModel::LeaveScope).push(FrameModel::Sequence(statements, 0)),
        StmtModel::Expression(expression) => m.push(FrameModel::Evaluate(expression)),
        StmtModel::Function(function) => m.with_scopes(
            defined(m.scopes, function.name.lexeme, ObjectModel::Function(function)),
        ),
        StmtModel::If(condition, then_branch, else_branch) => m.push(
            FrameModel::Branch(
                *then_branch,
                match else_branch {
                    Some(branch) => Some(*branch),
                    None => None,
                },
            ),
        ).push(FrameModel::Evaluate(condition)),
        StmtModel::Print(expression) => m.push(FrameModel::Print).push(
            FrameModel::Evaluate(expression),
        ),
        StmtModel::Var(name, initializer) => match initializer {
            Some(expression) => m.push(FrameModel::Define(name)).push(
                FrameModel::Evaluate(expression),
            ),
            None => m.with_scopes(defined(m.scopes, name.lexeme, ObjectModel::Nil)),
        },
        StmtModel::While(condition, body) => m.push(FrameModel::Loop(condition, *body)).push(
            FrameModel::Evaluate(condition),
        ),
    }
}

/// Starting an expression. A literal and a variable yield their value at
/// once; every other form first has its operands evaluated, left to right.
pub open spec fn evaluate(expr: ExprModel, m: MachineModel) -> Step {
    match expr {
        ExprModel::Assign(name, value) => m.push(FrameModel::Assign(name)).push(
            FrameModel::Evaluate(*value),
        ).proceed(),
        ExprModel::Binary(left, operator, right) => m.push(FrameModel::Right(operator, *right)).push(
            FrameModel::Evaluate(*left),
        ).proceed(),
        ExprModel::Call(callee, paren, arguments) => m.push(
            FrameModel::Call(paren, None, Seq::empty(), arguments),
        ).push(FrameModel::Evaluate(*callee)).proceed(),
        ExprModel::Grouping(inner) => m.push(FrameModel::Evaluate(*inner)).proceed(),
        ExprModel::Literal(literal) => m.with_value(literal_value(literal)).proceed(),
        ExprModel::Logical(left, operator, right) => m.push(
            FrameModel::Decide(operator, *right),
        ).push(FrameModel::Evaluate(*left)).proceed(),
        ExprModel::Unary(operator, right) => m.push(FrameModel::Unary(operator)).push(
            FrameModel::Evaluate(*right),
        ).proceed(),
        ExprModel::Variable(name) => match lookup(m.scopes, name.lexeme) {
            Some(value) => m.with_value(value).proceed(),
            None => m.fail(ErrorKind::UndefinedVariable, name),
        },
    }
}

/// A prefix operator applied to the last value: `-` takes a number, `!`
/// takes anything and yields the opposite of its truth.
pub open spec fn unary(operator: TokenModel, m: MachineModel) -> Step {
    match operator.kind {
        TokenKind::Minus => match m.value {
            ObjectModel::Number(bits) => m.with_value(
                ObjectModel::Number(number::opposite(bits)),
            ).proceed(),
            _ => m.fail(ErrorKind::TypeMismatch, operator),
        },
        TokenKind::Bang => m.with_value(ObjectModel::Bool(!truthy(m.value))).proceed(),
        _ => m.fail(ErrorKind::TypeMismatch, operator),
    }
}

/// A comparison of two doubles.
pub open spec fn compared(kind: TokenKind, left: u64, right: u64) -> bool {
    match kind {
        TokenKind::Greater => number::below(right, left),
        TokenKind::GreaterEqual => number::below(right, left) || number::same(right, left),
        TokenKind::Less => number::below(left, right),
        _ => number::below(left, right) || number::same(left, right),
    }
}

/// A binary operator applied to a left operand and the last value.
/// Arithmetic and comparison take two numbers; the sum, difference,
/// product or quotient is asked of the host. Equality takes any two values.
pub open spec fn binary(operator: TokenModel, left: ObjectModel, m: MachineModel) -> Step {
    match operator.kind {
        TokenKind::Minus | TokenKind::Plus | TokenKind::Slash | TokenKind::Star => match (
            left,
            m.value,
        ) {
            (ObjectModel::Number(l), ObjectModel::Number(r)) => m.request(
                ActionModel::Arithmetic(operator.kind, l, r),
            ),
            _ => m.fail(ErrorKind::TypeMismatch, operator),
        },
        TokenKind::Greater | TokenKind::GreaterEqual | TokenKind::Less | TokenKind::LessEqual => match (
            left,
            m.value,
        ) {
            (ObjectModel::Number(l), ObjectModel::Number(r)) => m.with_value(
                ObjectModel::Bool(compared(operator.kind, l, r)),
            ).proceed(),
            _ => m.fail(ErrorKind::TypeMismatch, operator),
        },
        TokenKind::EqualEqual => m.with_value(ObjectModel::Bool(equals(left, m.value))).proceed(),
        TokenKind::BangEqual => m.with_value(ObjectModel::Bool(!equals(left, m.value))).proceed(),
        _ => m.fail(ErrorKind::TypeMismatch, operator),
    }
}

/// The scope of a call: the first `count` parameters, each bound to the
/// argument in its place.
pub open spec fn bound(params: Seq<TokenModel>, arguments: Seq<ObjectModel>, count: nat) -> ScopeModel
    decreases count,
{
    if count == 0 {
        Map::empty()
    } else {
        bound(params, arguments, (count - 1) as nat).insert(
            params[count - 1].lexeme,
            arguments[count - 1],
        )
    }
}

/// Entering a callable with arguments that match its arity. A builtin is
/// asked of the host. A function gets a scope of its own, enclosed by the
/// global scope alone, in which its parameters are bound; its body is the
/// work to do, and after it the caller's scopes come back and the call
/// yields `nil`.
pub open spec fn called(callee: ObjectModel, arguments: Seq<ObjectModel>, m: MachineModel) -> Step {
    match callee {
        ObjectModel::BuiltinFunction(_, native) => m.request(
            ActionModel::CallNative(native, arguments),
        ),
        ObjectModel::Function(function) => m.with_scopes(
            seq![m.scopes[0], bound(function.params, arguments, function.params.len())],
        ).push(FrameModel::Return(m.scopes.subrange(1, m.scopes.len() as int))).push(
            FrameModel::Sequence(function.body, 0),
        ).proceed(),
        _ => m.proceed(),
    }
}

/// A call with its callee and arguments at hand: only a callable can be
/// called, and only with as many arguments as it takes.
pub open spec fn invoke(
    paren: TokenModel,
    callee: ObjectModel,
    arguments: Seq<ObjectModel>,
    m: MachineModel,
) -> Step {
    if !callable(callee) {
        m.fail(ErrorKind::NotCallable, paren)
    } else if arguments.len() != arity_of(callee) {
        m.fail(ErrorKind::ArityMismatch, paren)
    } else {
        called(callee, arguments, m)
    }
}

/// A call in the making takes the last value as its callee or as its next
/// argument, then has the next argument computed, or is made.
pub open spec fn gather(
    paren: TokenModel,
    callee: Option<ObjectModel>,
    arguments: Seq<ObjectModel>,
    pending: Seq<ExprModel>,
    m: MachineModel,
) -> Step {
    let target = match callee {
        Some(held) => held,
        None => m.value,
    };
    let ready = match callee {
        Some(_) => arguments.push(m.value),
        None => arguments,
    };
    if ready.len() < pending.len() {
        m.push(FrameModel::Call(paren, Some(target), ready, pending)).push(
            FrameModel::Evaluate(pending[ready.len() as int]),
        ).proceed()
    } else {
        invoke(paren, target, ready, m)
    }
}

/// Doing one piece of work on a machine from which it was taken.
pub open spec fn run(frame: FrameModel, m: MachineModel) -> Step {
    match frame {
        FrameModel::Execute(stmt) => begin(stmt, m).proceed(),
        FrameModel::Sequence(statements, next) => if next < statements.len() {
            m.push(FrameModel::Sequence(statements, next + 1)).push(
                FrameModel::Execute(statements[next as int]),
            ).proceed()
        } else {
            m.proceed()
        },
        FrameModel::LeaveScope => m.with_scopes(
            if m.scopes.len() > 1 {
                m.scopes.drop_last()
            } else {
                m.scopes
            },
        ).proceed(),
        FrameModel::Return(caller) => m.with_scopes(seq![m.scopes[0]] + caller).with_value(
            ObjectModel::Nil,
        ).proceed(),
        FrameModel::Evaluate(expr) => evaluate(expr, m),
        FrameModel::Print => Step { machine: m, action: ActionModel::Print(display(m.value)) },
        FrameModel::Define(name) => m.with_scopes(
            defined(m.scopes, name.lexeme, m.value),
        ).proceed(),
        FrameModel::Branch(then_branch, else_branch) => if truthy(m.value) {
            m.push(FrameModel::Execute(then_branch)).proceed()
        } else {
            match else_branch {
                Some(branch) => m.push(FrameModel::Execute(branch)).proceed(),
                None => m.proceed(),
            }
        },
        FrameModel::Loop(condition, body) => if truthy(m.value) {
            m.push(FrameModel::Loop(condition, body)).push(FrameModel::Evaluate(condition)).push(
                FrameModel::Execute(body),
            ).proceed()
        } else {
            m.proceed()
        },
        FrameModel::Assign(name) => match lookup(m.scopes, name.lexeme) {
            Some(_) => m.with_scopes(assigned(m.scopes, name.lexeme, m.value)).proceed(),
            None => m.fail(ErrorKind::UndefinedVariable, name),
        },
        FrameModel::Unary(operator) => unary(operator, m),
        FrameModel::Right(operator, right) => m.push(FrameModel::Apply(operator, m.value)).push(
            FrameModel::Evaluate(right),
        ).proceed(),
        FrameModel::Apply(operator, left) => binary(operator, left, m),
        FrameModel::Decide(operator, right) => if (operator.kind == TokenKind::Or) == truthy(
            m.value,
        ) {
            m.proceed()
        } else {
            m.push(FrameModel::Evaluate(right)).proceed()
        },
        FrameModel::Call(paren, callee, arguments, pending) => gather(
            paren,
            callee,
            arguments,
            pending,
            m,
        ),
    }
}

/// One step of the machine.
pub open spec fn step(m: MachineModel) -> Step {
    if m.awaiting {
        Step { machine: m, action: ActionModel::Suspended }
    } else if m.control.len() == 0 {
        Step { machine: m, action: ActionModel::Done }
    } else {
        run(m.control.last(), MachineModel { control: m.control.drop_last(), ..m })
    }
}

/// Up to `budget` steps: the machine stops early at the first step that
/// asks something of the host, says that it is done, or fails.
pub open spec fn advance(m: MachineModel, budget: nat) -> Step
    decreases budget,
{
    if budget == 0 {
        m.proceed()
    } else if step(m).action is Continue {
        advance(step(m).machine, (budget - 1) as nat)
    } else {
        step(m)
    }
}

/// Handing a waiting machine the value it waits for. A machine that does
/// not wait takes none.
pub open spec fn resumed(m: MachineModel, value: ObjectModel) -> MachineModel {
    if m.awaiting {
        MachineModel { value, awaiting: false, ..m }
    } else {
        m
    }
}


/// A call with another number of arguments than the callee takes fails
/// before anything of the callee runs: the failure is an arity mismatch at
/// the call's parenthesis, and no work is left.
pub proof fn law_arity_checked(
    paren: TokenModel,
    callee: ObjectModel,
    arguments: Seq<ObjectModel>,
    m: MachineModel,
)
    requires
        callable(callee),
        arguments.len() != arity_of(callee),
    ensures
        invoke(paren, callee, arguments, m).action == ActionModel::Failed(
            RuntimeErrorModel { kind: ErrorKind::ArityMismatch, token: paren },
        ),
        invoke(paren, callee, arguments, m).machine.control.len() == 0,
{
}

/// Only callables are called: a call of any other value fails as not
/// callable, whatever the arguments.
pub proof fn law_callable_checked(
    paren: TokenModel,
    callee: ObjectModel,
    arguments: Seq<ObjectModel>,
    m: MachineModel,
)
    requires
        !callable(callee),
    ensures
        invoke(paren, callee, arguments, m).action == ActionModel::Failed(
            RuntimeErrorModel { kind: ErrorKind::NotCallable, token: paren },
        ),
{
}

/// A function runs in a scope of its own that only the global scope
/// encloses, whatever scopes the caller has in reach; when the body is
/// done the caller's scopes are back and the call has yielded `nil`.
pub proof fn law_call(function: FunctionModel, arguments: Seq<ObjectModel>, m: MachineModel)
    requires
        m.valid(),
    ensures
        ({
            let entered = called(ObjectModel::Function(function), arguments, m).machine;
            let body = FrameModel::Sequence(function.body, 0);
            let after = FrameModel::Return(m.scopes.subrange(1, m.scopes.len() as int));
            &&& entered.scopes.len() == 2
            &&& entered.scopes[0] == m.scopes[0]
            &&& entered.control == m.control.push(after).push(body)
            &&& run(after, entered).machine.scopes == m.scopes
            &&& run(after, entered).machine.value == ObjectModel::Nil
        }),
{
    let entered = called(ObjectModel::Function(function), arguments, m).machine;
    let after = FrameModel::Return(m.scopes.subrange(1, m.scopes.len() as int));
    assert(run(after, entered).machine.scopes =~= m.scopes);
}

/// A failure leaves the global scope as it was and nothing else: no work,
/// no other scope. A machine that has failed is ready for the next
/// program.
pub proof fn law_failure(m: MachineModel, kind: ErrorKind, token: TokenModel)
    ensures
        m.fail(kind, token).machine.scopes == seq![m.scopes[0]],
        m.fail(kind, token).machine.control.len() == 0,
        !m.fail(kind, token).machine.awaiting,
        step(m.fail(kind, token).machine).action == ActionModel::Done,
{
}

/// `and` and `or` short-circuit: where the left operand decides, the right
/// operand is never evaluated and the left operand is the value.
pub proof fn law_short_circuit(operator: TokenModel, right: ExprModel, m: MachineModel)
    ensures
        operator.kind == TokenKind::Or && truthy(m.value) ==> run(
            FrameModel::Decide(operator, right),
            m,
        ).machine == m,
        operator.kind == TokenKind::And && !truthy(m.value) ==> run(
            FrameModel::Decide(operator, right),
            m,
        ).machine == m,
{
}

/// A waiting machine takes no step until it is resumed, and a machine
/// that does not wait ignores a value handed to it.
pub proof fn law_waiting(m: MachineModel, value: ObjectModel)
    ensures
        m.awaiting ==> step(m).machine == m && step(m).action == ActionModel::Suspended,
        m.awaiting ==> !resumed(m, value).awaiting && resumed(m, value).value == value,
        !m.awaiting ==> resumed(m, value) == m,
{
}


/// The machine after `count` steps, whatever they ask of the host.
pub open spec fn after(m: MachineModel, count: nat) -> MachineModel
    decreases count,
{
    if count == 0 {
        m
    } else {
        after(step(m).machine, (count - 1) as nat)
    }
}

/// What a block declares is invisible once the block has ended: running
/// `{ var name = literal; }` leaves the scopes in reach, and the pending
/// work, exactly as they were.
pub proof fn law_block_declaration(m: MachineModel, name: TokenModel, literal: LiteralModel)
    requires
        m.valid(),
        !m.awaiting,
    ensures
        ({
            let declaration = StmtModel::Var(name, Some(ExprModel::Literal(literal)));
            let block = StmtModel::Block(seq![declaration]);
            let end = after(m.push(FrameModel::Execute(block)), 7);
            &&& end.scopes == m.scopes
            &&& end.control == m.control
            &&& !end.awaiting
        }),
{
    let value = literal_value(literal);
    let declaration = StmtModel::Var(name, Some(ExprModel::Literal(literal)));
    let statements = seq![declaration];
    let inside = m.scopes.push(Map::<Seq<u8>, ObjectModel>::empty());
    let m0 = m.push(FrameModel::Execute(StmtModel::Block(statements)));
    let m1 = step(m0).machine;
    assert(m0.control.drop_last() =~= m.control);
    assert(m1 == m.with_scopes(inside).push(FrameModel::LeaveScope).push(
        FrameModel::Sequence(statements, 0),
    ));
    let base = m.with_scopes(inside).push(FrameModel::LeaveScope);
    let m2 = step(m1).machine;
    assert(m1.control.drop_last() =~= base.control);
    assert(m2 == base.push(FrameModel::Sequence(statements, 1)).push(
        FrameModel::Execute(declaration),
    ));
    let rest = base.push(FrameModel::Sequence(statements, 1));
    let m3 = step(m2).machine;
    assert(m2.control.drop_last() =~= rest.control);
    assert(m3 == rest.push(FrameModel::Define(name)).push(
        FrameModel::Evaluate(ExprModel::Literal(literal)),
    ));
    let m4 = step(m3).machine;
    assert(m3.control.drop_last() =~= rest.push(FrameModel::Define(name)).control);
    assert(m4 == rest.push(FrameModel::Define(name)).with_value(value));
    let m5 = step(m4).machine;
    assert(m4.control.drop_last() =~= rest.control);
    assert(m5 == rest.with_value(value).with_scopes(defined(inside, name.lexeme, value)));
    let m6 = step(m5).machine;
    assert(m5.control.drop_last() =~= base.control);
    assert(m6 == base.with_value(value).with_scopes(defined(inside, name.lexeme, value)));
    let m7 = step(m6).machine;
    assert(m6.control.drop_last() =~= m.control);
    law_scope_left(m.scopes, name.lexeme, value);
    assert(m7 == m.with_value(value));
    assert(after(m0, 7) == m7) by {
        reveal_with_fuel(after, 8);
    }
}

/// An assignment inside a block reaches the enclosing scope that declares
/// the name: running `{ name = literal; }` where some scope in reach
/// binds the name leaves that binding changed, and nothing else.
pub proof fn law_block_assignment(m: MachineModel, name: TokenModel, literal: LiteralModel)
    requires
        m.valid(),
        !m.awaiting,
        lookup(m.scopes, name.lexeme) is Some,
    ensures
        ({
            let assignment = ExprModel::Assign(name, Box::new(ExprModel::Literal(literal)));
            let block = StmtModel::Block(seq![StmtModel::Expression(assignment)]);
            let end = after(m.push(FrameModel::Execute(block)), 8);
            &&& end.scopes == assigned(m.scopes, name.lexeme, literal_value(literal))
            &&& lookup(end.scopes, name.lexeme) == Some(literal_value(literal))
            &&& end.control == m.control
            &&& !end.awaiting
        }),
{
    let value = literal_value(literal);
    let assignment = ExprModel::Assign(name, Box::new(ExprModel::Literal(literal)));
    let statement = StmtModel::Expression(assignment);
    let statements = seq![statement];
    let empty = Map::<Seq<u8>, ObjectModel>::empty();
    let inside = m.scopes.push(empty);
    let m0 = m.push(FrameModel::Execute(StmtModel::Block(statements)));
    let m1 = step(m0).machine;
    assert(m0.control.drop_last() =~= m.control);
    let base = m.with_scopes(inside).push(FrameModel::LeaveScope);
    assert(m1 == base.push(FrameModel::Sequence(statements, 0)));
    let m2 = step(m1).machine;
    assert(m1.control.drop_last() =~= base.control);
    let rest = base.push(FrameModel::Sequence(statements, 1));
    assert(m2 == rest.push(FrameModel::Execute(statement)));
    let m3 = step(m2).machine;
    assert(m2.control.drop_last() =~= rest.control);
    assert(m3 == rest.push(FrameModel::Evaluate(assignment)));
    let m4 = step(m3).machine;
    assert(m3.control.drop_last() =~= rest.control);
    assert(m4 == rest.push(FrameModel::Assign(name)).push(
        FrameModel::Evaluate(ExprModel::Literal(literal)),
    ));
    let m5 = step(m4).machine;
    assert(m4.control.drop_last() =~= rest.push(FrameModel::Assign(name)).control);
    assert(m5 == rest.push(FrameModel::Assign(name)).with_value(value));
    law_assign(m.scopes, empty, name.lexeme, value);
    let changed = assigned(m.scopes, name.lexeme, value);
    let m6 = step(m5).machine;
    assert(m5.control.drop_last() =~= rest.control);
    assert(m6 == rest.with_value(value).with_scopes(changed.push(empty)));
    let m7 = step(m6).machine;
    assert(m6.control.drop_last() =~= base.control);
    assert(m7 == base.with_value(value).with_scopes(changed.push(empty)));
    let m8 = step(m7).machine;
    assert(m7.control.drop_last() =~= m.control);
    assert(changed.push(empty).drop_last() =~= changed);
    assert(m8 == m.with_value(value).with_scopes(changed));
    assert(after(m0, 8) == m8) by {
        reveal_with_fuel(after, 9);
    }
}

/// A `print` of a literal asks the host for one line, the display form of
/// the literal, and leaves the scopes and the pending work as they were.
pub proof fn law_print_literal(m: MachineModel, literal: LiteralModel)
    requires
        !m.awaiting,
    ensures
        ({
            let print = StmtModel::Print(ExprModel::Literal(literal));
            let before = after(m.push(FrameModel::Execute(print)), 2);
            &&& step(before).action == ActionModel::Print(display(literal_value(literal)))
            &&& step(before).machine == m.with_value(literal_value(literal))
        }),
{
    let print = StmtModel::Print(ExprModel::Literal(literal));
    let m0 = m.push(FrameModel::Execute(print));
    let m1 = step(m0).machine;
    assert(m0.control.drop_last() =~= m.control);
    assert(m1 == m.push(FrameModel::Print).push(FrameModel::Evaluate(ExprModel::Literal(literal))));
    let m2 = step(m1).machine;
    assert(m1.control.drop_last() =~= m.push(FrameModel::Print).control);
    assert(m2 == m.push(FrameModel::Print).with_value(literal_value(literal)));
    assert(m2.control.drop_last() =~= m.control);
    assert(after(m0, 2) == m2) by {
        reveal_with_fuel(after, 3);
    }
}


/// A step keeps the global scope in reach.
pub proof fn law_step_valid(m: MachineModel)
    requires
        m.valid(),
    ensures
        step(m).machine.valid(),
{
    if !m.awaiting && m.control.len() > 0 {
        let rest = MachineModel { control: m.control.drop_last(), ..m };
        match m.control.last() {
            FrameModel::Assign(name) => {
                if lookup(m.scopes, name.lexeme) is Some {
                    law_assign(m.scopes, Map::empty(), name.lexeme, m.value);
                }
            },
            _ => {},
        }
    }
}


/// A call binds each parameter to the argument in its place. Where two
/// parameters have one name, the later one is bound.
pub proof fn law_parameters_bound(
    params: Seq<TokenModel>,
    arguments: Seq<ObjectModel>,
    count: nat,
    i: int,
)
    requires
        0 <= i < count,
        forall|j: int| i < j < count ==> params[j].lexeme != params[i].lexeme,
    ensures
        bound(params, arguments, count).dom().contains(params[i].lexeme),
        bound(params, arguments, count)[params[i].lexeme] == arguments[i],
    decreases count,
{
    if i < count - 1 {
        law_parameters_bound(params, arguments, (count - 1) as nat, i);
    }
}

/// A call binds nothing but its parameters.
pub proof fn law_parameters_only(
    params: Seq<TokenModel>,
    arguments: Seq<ObjectModel>,
    count: nat,
    other: Seq<u8>,
)
    requires
        forall|j: int| 0 <= j < count ==> params[j].lexeme != other,
    ensures
        !bound(params, arguments, count).dom().contains(other),
    decreases count,
{
    if count > 0 {
        law_parameters_only(params, arguments, (count - 1) as nat, other);
    }
}

/// A loop whose condition came out truthy runs its body and is then where
/// the `while` statement started; a loop whose condition came out falsy is
/// over.
pub proof fn law_while(condition: ExprModel, body: StmtModel, m: MachineModel)
    ensures
        truthy(m.value) ==> run(FrameModel::Loop(condition, body), m).machine == begin(
            StmtModel::While(condition, Box::new(body)),
            m,
        ).push(FrameModel::Execute(body)),
        !truthy(m.value) ==> run(FrameModel::Loop(condition, body), m).machine == m,
        run(FrameModel::Loop(condition, body), m).action == ActionModel::Continue,
{
}

/// An `if` runs its first branch where the condition came out truthy, its
/// second branch where it came out falsy and there is one, and nothing
/// else.
pub proof fn law_if(
    then_branch: StmtModel,
    else_branch: Option<StmtModel>,
    m: MachineModel,
)
    ensures
        ({
            let after = run(FrameModel::Branch(then_branch, else_branch), m).machine;
            &&& truthy(m.value) ==> after == m.push(FrameModel::Execute(then_branch))
            &&& !truthy(m.value) && else_branch is Some ==> after == m.push(
                FrameModel::Execute(else_branch->Some_0),
            )
            &&& !truthy(m.value) && else_branch is None ==> after == m
        }),
{
}

} // verus!
