//! The interpreter does what the tree says.
//!
//! [`crate::semantics`] says by recursion over the tree what a program
//! yields with a given host; [`crate::machine`] says what each step of the
//! interpreter does. Here the two are shown to agree: an interpreter that
//! is handed an expression or a statement and is run by the host arrives,
//! after the number of steps that the recursion counts, at the outcome
//! that the recursion gives, with the same scopes, the same output and
//! the same failure, and with the work that was pending before still
//! pending.

use vstd::prelude::*;
use crate::environment::{law_assign, lookup};
use crate::expr::ExprModel;
use crate::machine::{
    bound, initial, resumed, run, step, ActionModel, FrameModel, MachineModel,
};
use crate::object::{arity_of, callable, truthy, ObjectModel, RenderedModel};
use crate::scanner::{TokenKind, TokenModel};
use crate::semantics::{
    eval, exec, exec_all, gathered, hosted, looped, HostModel, Outcome, Run, World,
};
use crate::stmt::StmtModel;

verus! {

/// The world of a machine and the lines printed so far.
pub open spec fn world(m: MachineModel, output: Seq<RenderedModel>) -> World {
    World { scopes: m.scopes, value: m.value, output }
}

/// The machine `m` with the scopes and the value of `w`.
pub open spec fn landed(m: MachineModel, w: World) -> MachineModel {
    m.with_scopes(w.scopes).with_value(w.value)
}

/// Where the outcome of an evaluation that started from machine `m` has
/// brought the interpreter and its host: on success the machine has the
/// scopes and the value of the outcome and its pending work is as it was;
/// on failure the machine is as a failure leaves it.
pub open spec fn arrival(m: MachineModel, outcome: Outcome) -> Run {
    match outcome {
        Outcome::Done(w, _) => Run { machine: landed(m, w), output: w.output, failure: None },
        Outcome::Failed(error, w, _) => Run {
            machine: landed(m, w).fail(error.kind, error.token).machine,
            output: w.output,
            failure: Some(error),
        },
        Outcome::Unfinished => Run { machine: m, output: Seq::empty(), failure: None },
    }
}

/// The number of steps an outcome took.
pub open spec fn steps(outcome: Outcome) -> nat {
    match outcome {
        Outcome::Done(_, n) => n,
        Outcome::Failed(_, _, n) => n,
        Outcome::Unfinished => 0,
    }
}

/// Whether an outcome that ended well kept the number of scopes.
pub open spec fn balanced(m: MachineModel, outcome: Outcome) -> bool {
    outcome matches Outcome::Done(w, _) ==> w.scopes.len() == m.scopes.len()
}

/// Whether an outcome that failed did so with the global scope in reach.
pub open spec fn rooted(outcome: Outcome) -> bool {
    outcome matches Outcome::Failed(_, w, _) ==> w.scopes.len() >= 1
}

/// The first step of a machine does the work that was added last.
proof fn lemma_top(m: MachineModel, frame: FrameModel)
    requires
        !m.awaiting,
    ensures
        step(m.push(frame)) == run(frame, m),
{
    assert(m.push(frame).control.drop_last() =~= m.control);
}

/// A step that asks nothing of the host, then `rest` more with the host.
proof fn lemma_first(m: MachineModel, output: Seq<RenderedModel>, host: HostModel, rest: nat)
    requires
        step(m).action is Continue,
    ensures
        hosted(m, output, host, rest + 1) == hosted(step(m).machine, output, host, rest),
{
}

/// Steps with the host add up, and a failure ends them.
proof fn lemma_add(m: MachineModel, output: Seq<RenderedModel>, host: HostModel, a: nat, b: nat)
    ensures
        hosted(m, output, host, a).failure is None ==> hosted(m, output, host, a + b) == hosted(
            hosted(m, output, host, a).machine,
            hosted(m, output, host, a).output,
            host,
            b,
        ),
        hosted(m, output, host, a).failure is Some ==> hosted(m, output, host, a + b) == hosted(
            m,
            output,
            host,
            a,
        ),
    decreases a,
{
    if a > 0 {
        let taken = step(m);
        let before = (a - 1) as nat;
        assert((a + b - 1) as nat == before + b);
        match taken.action {
            ActionModel::Failed(_) => {},
            ActionModel::Print(line) => {
                lemma_add(taken.machine, output.push(line), host, before, b);
            },
            ActionModel::Arithmetic(operator, left, right) => {
                lemma_add(
                    resumed(
                        taken.machine,
                        ObjectModel::Number((host.arithmetic)(operator, left, right)),
                    ),
                    output,
                    host,
                    before,
                    b,
                );
            },
            ActionModel::CallNative(native, arguments) => {
                lemma_add(
                    resumed(taken.machine, (host.native)(native, arguments)),
                    output,
                    host,
                    before,
                    b,
                );
            },
            _ => {
                lemma_add(taken.machine, output, host, before, b);
            },
        }
    }
}

/// One step with the host.
proof fn lemma_once(m: MachineModel, output: Seq<RenderedModel>, host: HostModel)
    ensures
        hosted(m, output, host, 1) == hosted(m, output, host, 1),
        step(m).action is Continue ==> hosted(m, output, host, 1) == (Run {
            machine: step(m).machine,
            output,
            failure: None,
        }),
        step(m).action matches ActionModel::Failed(error) ==> hosted(
            m,
            output,
            host,
            1,
        ) == (Run { machine: step(m).machine, output, failure: Some(error) }),
        step(m).action matches ActionModel::Print(line) ==> hosted(
            m,
            output,
            host,
            1,
        ) == (Run { machine: step(m).machine, output: output.push(line), failure: None }),
        step(m).action matches ActionModel::Arithmetic(operator, left, right)
            ==> hosted(m, output, host, 1) == (Run {
            machine: resumed(
                step(m).machine,
                ObjectModel::Number((host.arithmetic)(operator, left, right)),
            ),
            output,
            failure: None,
        }),
        step(m).action matches ActionModel::CallNative(native, arguments)
            ==> hosted(m, output, host, 1) == (Run {
            machine: resumed(step(m).machine, (host.native)(native, arguments)),
            output,
            failure: None,
        }),
{
    reveal_with_fuel(hosted, 2);
}

/// An evaluation under more pending work: what was pending stays pending
/// when the evaluation ends well, and is gone either way when it fails.
proof fn lemma_under(m: MachineModel, frame: FrameModel, outcome: Outcome)
    ensures
        outcome matches Outcome::Done(w, _) ==> arrival(m.push(frame), outcome) == (Run {
            machine: landed(m, w).push(frame),
            output: w.output,
            failure: None,
        }),
        outcome is Failed ==> arrival(m.push(frame), outcome) == arrival(m, outcome),
{
}

/// The interpreter evaluates an expression as the recursion over the tree
/// says.
#[verifier::rlimit(50)]
pub proof fn law_eval(
    expr: ExprModel,
    m: MachineModel,
    output: Seq<RenderedModel>,
    host: HostModel,
    fuel: nat,
)
    requires
        m.valid(),
        !m.awaiting,
        !(eval(expr, world(m, output), host, fuel) is Unfinished),
    ensures
        hosted(
            m.push(FrameModel::Evaluate(expr)),
            output,
            host,
            steps(eval(expr, world(m, output), host, fuel)),
        ) == arrival(m, eval(expr, world(m, output), host, fuel)),
        balanced(m, eval(expr, world(m, output), host, fuel)),
        rooted(eval(expr, world(m, output), host, fuel)),
    decreases fuel, 0nat, expr, 1nat,
{
    let w = world(m, output);
    let start = m.push(FrameModel::Evaluate(expr));
    lemma_top(m, FrameModel::Evaluate(expr));
    assert(landed(m, w) == m);
    match expr {
        ExprModel::Literal(_) => {
            lemma_once(start, output, host);
        },
        ExprModel::Variable(_) => {
            lemma_once(start, output, host);
        },
        ExprModel::Grouping(inner) => {
            law_eval(*inner, m, output, host, fuel);
            lemma_first(start, output, host, steps(eval(*inner, w, host, fuel)));
        },
        ExprModel::Unary(_, _) => {
            lemma_eval_unary(expr, m, output, host, fuel);
        },
        ExprModel::Assign(_, _) => {
            lemma_eval_assign(expr, m, output, host, fuel);
        },
        ExprModel::Logical(_, _, _) => {
            lemma_eval_logical(expr, m, output, host, fuel);
        },
        ExprModel::Binary(_, _, _) => {
            lemma_eval_binary(expr, m, output, host, fuel);
        },
        ExprModel::Call(_, _, _) => {
            lemma_eval_call(expr, m, output, host, fuel);
        },
    }
}

/// A prefix operator: its operand, then the operator.
#[verifier::rlimit(50)]
proof fn lemma_eval_unary(
    expr: ExprModel,
    m: MachineModel,
    output: Seq<RenderedModel>,
    host: HostModel,
    fuel: nat,
)
    requires
        expr is Unary,
        m.valid(),
        !m.awaiting,
        !(eval(expr, world(m, output), host, fuel) is Unfinished),
    ensures
        hosted(
            m.push(FrameModel::Evaluate(expr)),
            output,
            host,
            steps(eval(expr, world(m, output), host, fuel)),
        ) == arrival(m, eval(expr, world(m, output), host, fuel)),
        balanced(m, eval(expr, world(m, output), host, fuel)),
        rooted(eval(expr, world(m, output), host, fuel)),
    decreases fuel, 0nat, expr, 0nat,
{
    let w = world(m, output);
    let start = m.push(FrameModel::Evaluate(expr));
    lemma_top(m, FrameModel::Evaluate(expr));
    assert(landed(m, w) == m);
    match expr {
        ExprModel::Unary(operator, right) => {
            let frame = FrameModel::Unary(operator);
            let first = eval(*right, w, host, fuel);
            law_eval(*right, m.push(frame), output, host, fuel);
            lemma_under(m, frame, first);
            let inner = m.push(frame).push(FrameModel::Evaluate(*right));
            match first {
                Outcome::Done(then, n) => {
                    lemma_first(start, output, host, n + 1);
                    lemma_add(inner, output, host, n, 1);
                    lemma_top(landed(m, then), frame);
                    lemma_once(landed(m, then).push(frame), then.output, host);
                },
                _ => {
                    lemma_first(start, output, host, steps(first));
                },
            }
        },
        _ => {},
    }
}

/// An assignment: its value, then the assignment.
#[verifier::rlimit(50)]
proof fn lemma_eval_assign(
    expr: ExprModel,
    m: MachineModel,
    output: Seq<RenderedModel>,
    host: HostModel,
    fuel: nat,
)
    requires
        expr is Assign,
        m.valid(),
        !m.awaiting,
        !(eval(expr, world(m, output), host, fuel) is Unfinished),
    ensures
        hosted(
            m.push(FrameModel::Evaluate(expr)),
            output,
            host,
            steps(eval(expr, world(m, output), host, fuel)),
        ) == arrival(m, eval(expr, world(m, output), host, fuel)),
        balanced(m, eval(expr, world(m, output), host, fuel)),
        rooted(eval(expr, world(m, output), host, fuel)),
    decreases fuel, 0nat, expr, 0nat,
{
    let w = world(m, output);
    let start = m.push(FrameModel::Evaluate(expr));
    lemma_top(m, FrameModel::Evaluate(expr));
    assert(landed(m, w) == m);
    match expr {
        ExprModel::Assign(name, value) => {
            let frame = FrameModel::Assign(name);
            let first = eval(*value, w, host, fuel);
            law_eval(*value, m.push(frame), output, host, fuel);
            lemma_under(m, frame, first);
            let inner = m.push(frame).push(FrameModel::Evaluate(*value));
            match first {
                Outcome::Done(then, n) => {
                    lemma_first(start, output, host, n + 1);
                    lemma_add(inner, output, host, n, 1);
                    lemma_top(landed(m, then), frame);
                    lemma_once(landed(m, then).push(frame), then.output, host);
                    if lookup(then.scopes, name.lexeme) is Some {
                        law_assign(then.scopes, Map::empty(), name.lexeme, then.value);
                    }
                },
                _ => {
                    lemma_first(start, output, host, steps(first));
                },
            }
        },
        _ => {},
    }
}

/// `and` and `or`: the left operand, then the right one where the left one does not decide.
#[verifier::rlimit(50)]
proof fn lemma_eval_logical(
    expr: ExprModel,
    m: MachineModel,
    output: Seq<RenderedModel>,
    host: HostModel,
    fuel: nat,
)
    requires
        expr is Logical,
        m.valid(),
        !m.awaiting,
        !(eval(expr, world(m, output), host, fuel) is Unfinished),
    ensures
        hosted(
            m.push(FrameModel::Evaluate(expr)),
            output,
            host,
            steps(eval(expr, world(m, output), host, fuel)),
        ) == arrival(m, eval(expr, world(m, output), host, fuel)),
        balanced(m, eval(expr, world(m, output), host, fuel)),
        rooted(eval(expr, world(m, output), host, fuel)),
    decreases fuel, 0nat, expr, 0nat,
{
    let w = world(m, output);
    let start = m.push(FrameModel::Evaluate(expr));
    lemma_top(m, FrameModel::Evaluate(expr));
    assert(landed(m, w) == m);
    match expr {
        ExprModel::Logical(left, operator, right) => {
            let frame = FrameModel::Decide(operator, *right);
            let first = eval(*left, w, host, fuel);
            law_eval(*left, m.push(frame), output, host, fuel);
            lemma_under(m, frame, first);
            let inner = m.push(frame).push(FrameModel::Evaluate(*left));
            match first {
                Outcome::Done(then, n) => {
                    let held = landed(m, then);
                    lemma_top(held, frame);
                    if (operator.kind == TokenKind::Or) == truthy(then.value) {
                        lemma_first(start, output, host, n + 1);
                        lemma_add(inner, output, host, n, 1);
                        lemma_once(held.push(frame), then.output, host);
                    } else {
                        let second = eval(*right, then, host, fuel);
                        let k = steps(second);
                        lemma_first(start, output, host, n + 1 + k);
                        lemma_add(inner, output, host, n, 1 + k);
                        lemma_first(held.push(frame), then.output, host, k);
                        assert(world(held, then.output) == then);
                        law_eval(*right, held, then.output, host, fuel);
                        assert(landed(held, then) == held);
                    }
                },
                _ => {
                    lemma_first(start, output, host, steps(first));
                },
            }
        },
        _ => {},
    }
}

/// A binary operator: the left operand, the right operand, then the operator.
#[verifier::rlimit(50)]
proof fn lemma_eval_binary(
    expr: ExprModel,
    m: MachineModel,
    output: Seq<RenderedModel>,
    host: HostModel,
    fuel: nat,
)
    requires
        expr is Binary,
        m.valid(),
        !m.awaiting,
        !(eval(expr, world(m, output), host, fuel) is Unfinished),
    ensures
        hosted(
            m.push(FrameModel::Evaluate(expr)),
            output,
            host,
            steps(eval(expr, world(m, output), host, fuel)),
        ) == arrival(m, eval(expr, world(m, output), host, fuel)),
        balanced(m, eval(expr, world(m, output), host, fuel)),
        rooted(eval(expr, world(m, output), host, fuel)),
    decreases fuel, 0nat, expr, 0nat,
{
    let w = world(m, output);
    let start = m.push(FrameModel::Evaluate(expr));
    lemma_top(m, FrameModel::Evaluate(expr));
    assert(landed(m, w) == m);
    match expr {
        ExprModel::Binary(left, operator, right) => {
            let frame = FrameModel::Right(operator, *right);
            let first = eval(*left, w, host, fuel);
            law_eval(*left, m.push(frame), output, host, fuel);
            lemma_under(m, frame, first);
            let inner = m.push(frame).push(FrameModel::Evaluate(*left));
            match first {
                Outcome::Done(then, n) => {
                    let held = landed(m, then);
                    lemma_top(held, frame);
                    let second = eval(*right, then, host, fuel);
                    let k = steps(second);
                    let apply = FrameModel::Apply(operator, then.value);
                    assert(world(held, then.output) == then);
                    law_eval(*right, held.push(apply), then.output, host, fuel);
                    lemma_under(held, apply, second);
                    let after = held.push(apply).push(FrameModel::Evaluate(*right));
                    match second {
                        Outcome::Done(last, _) => {
                            lemma_first(start, output, host, n + 1 + k + 1);
                            lemma_add(inner, output, host, n, 1 + k + 1);
                            lemma_first(held.push(frame), then.output, host, k + 1);
                            lemma_add(after, then.output, host, k, 1);
                            let both = landed(held, last);
                            assert(both == landed(m, last));
                            lemma_top(both, apply);
                            lemma_once(both.push(apply), last.output, host);
                        },
                        _ => {
                            lemma_first(start, output, host, n + 1 + k);
                            lemma_add(inner, output, host, n, 1 + k);
                            lemma_first(held.push(frame), then.output, host, k);
                        },
                    }
                },
                _ => {
                    lemma_first(start, output, host, steps(first));
                },
            }
        },
        _ => {},
    }
}

/// A call: the callee, then the arguments and the call.
#[verifier::rlimit(50)]
proof fn lemma_eval_call(
    expr: ExprModel,
    m: MachineModel,
    output: Seq<RenderedModel>,
    host: HostModel,
    fuel: nat,
)
    requires
        expr is Call,
        m.valid(),
        !m.awaiting,
        !(eval(expr, world(m, output), host, fuel) is Unfinished),
    ensures
        hosted(
            m.push(FrameModel::Evaluate(expr)),
            output,
            host,
            steps(eval(expr, world(m, output), host, fuel)),
        ) == arrival(m, eval(expr, world(m, output), host, fuel)),
        balanced(m, eval(expr, world(m, output), host, fuel)),
        rooted(eval(expr, world(m, output), host, fuel)),
    decreases fuel, 0nat, expr, 0nat,
{
    let w = world(m, output);
    let start = m.push(FrameModel::Evaluate(expr));
    lemma_top(m, FrameModel::Evaluate(expr));
    assert(landed(m, w) == m);
    match expr {
        ExprModel::Call(callee, paren, arguments) => {
            let frame = FrameModel::Call(paren, None, Seq::empty(), arguments);
            let first = eval(*callee, w, host, fuel);
            law_eval(*callee, m.push(frame), output, host, fuel);
            lemma_under(m, frame, first);
            let inner = m.push(frame).push(FrameModel::Evaluate(*callee));
            match first {
                Outcome::Done(then, n) => {
                    let held = landed(m, then);
                    let made = gathered(paren, None, Seq::empty(), arguments, then, host, fuel);
                    let k = steps(made);
                    assert(world(held, then.output) == then);
                    law_gathered(
                        paren,
                        None,
                        Seq::empty(),
                        arguments,
                        held,
                        then.output,
                        host,
                        fuel,
                    );
                    lemma_first(start, output, host, n + k);
                    lemma_add(inner, output, host, n, k);
                    assert(landed(held, then) == held);
                },
                _ => {
                    lemma_first(start, output, host, steps(first));
                },
            }
        },
        _ => {},
    }
}

/// The target of a call in the making: the callee that is held, or the
/// value at hand.
pub open spec fn target_of(callee: Option<ObjectModel>, w: World) -> ObjectModel {
    match callee {
        Some(held) => held,
        None => w.value,
    }
}

/// The arguments of a call in the making, with the value at hand where it
/// is one of them.
pub open spec fn ready_of(callee: Option<ObjectModel>, arguments: Seq<ObjectModel>, w: World) -> Seq<
    ObjectModel,
> {
    match callee {
        Some(_) => arguments.push(w.value),
        None => arguments,
    }
}

/// How many steps of gathering a call in the making has before it, at
/// most.
pub open spec fn room(callee: Option<ObjectModel>, arguments: Seq<ObjectModel>, pending: Seq<ExprModel>) -> nat {
    let held = arguments.len() + if callee is Some {
        1nat
    } else {
        0nat
    };
    if held <= pending.len() {
        (pending.len() + 1 - held) as nat
    } else {
        0
    }
}

/// The interpreter gathers the arguments of a call and makes the call as
/// the recursion over the tree says.
#[verifier::rlimit(50)]
pub proof fn law_gathered(
    paren: TokenModel,
    callee: Option<ObjectModel>,
    arguments: Seq<ObjectModel>,
    pending: Seq<ExprModel>,
    m: MachineModel,
    output: Seq<RenderedModel>,
    host: HostModel,
    fuel: nat,
)
    requires
        m.valid(),
        !m.awaiting,
        !(gathered(paren, callee, arguments, pending, world(m, output), host, fuel) is Unfinished),
    ensures
        hosted(
            m.push(FrameModel::Call(paren, callee, arguments, pending)),
            output,
            host,
            steps(gathered(paren, callee, arguments, pending, world(m, output), host, fuel)),
        ) == arrival(
            m,
            gathered(paren, callee, arguments, pending, world(m, output), host, fuel),
        ),
        balanced(m, gathered(paren, callee, arguments, pending, world(m, output), host, fuel)),
        rooted(gathered(paren, callee, arguments, pending, world(m, output), host, fuel)),
    decreases fuel, 0nat, pending, 2 * room(callee, arguments, pending) + 1,
{
    let w = world(m, output);
    let frame = FrameModel::Call(paren, callee, arguments, pending);
    let start = m.push(frame);
    lemma_top(m, frame);
    assert(landed(m, w) == m);
    let target = match callee {
        Some(held) => held,
        None => w.value,
    };
    let ready = match callee {
        Some(_) => arguments.push(w.value),
        None => arguments,
    };
    if ready.len() < pending.len() {
        lemma_gathered_next(paren, callee, arguments, pending, m, output, host, fuel);
    } else if !callable(target) {
        lemma_once(start, output, host);
    } else if ready.len() != arity_of(target) {
        lemma_once(start, output, host);
    } else {
        match target {
            ObjectModel::BuiltinFunction(_, native) => {
                lemma_once(start, output, host);
            },
            ObjectModel::Function(function) => {
                lemma_gathered_function(paren, callee, arguments, pending, m, output, host, fuel);
            },
            _ => {},
        }
    }
}

/// A call in the making with an argument still to evaluate.
#[verifier::rlimit(50)]
proof fn lemma_gathered_next(
    paren: TokenModel,
    callee: Option<ObjectModel>,
    arguments: Seq<ObjectModel>,
    pending: Seq<ExprModel>,
    m: MachineModel,
    output: Seq<RenderedModel>,
    host: HostModel,
    fuel: nat,
)
    requires
        m.valid(),
        !m.awaiting,
        !(gathered(paren, callee, arguments, pending, world(m, output), host, fuel) is Unfinished),
        ready_of(callee, arguments, world(m, output)).len() < pending.len(),
    ensures
        hosted(
            m.push(FrameModel::Call(paren, callee, arguments, pending)),
            output,
            host,
            steps(gathered(paren, callee, arguments, pending, world(m, output), host, fuel)),
        ) == arrival(
            m,
            gathered(paren, callee, arguments, pending, world(m, output), host, fuel),
        ),
        balanced(m, gathered(paren, callee, arguments, pending, world(m, output), host, fuel)),
        rooted(gathered(paren, callee, arguments, pending, world(m, output), host, fuel)),
    decreases fuel, 0nat, pending, 2 * room(callee, arguments, pending),
{
    let w = world(m, output);
    let frame = FrameModel::Call(paren, callee, arguments, pending);
    let start = m.push(frame);
    lemma_top(m, frame);
    assert(landed(m, w) == m);
    let target = match callee {
        Some(held) => held,
        None => w.value,
    };
    let ready = match callee {
        Some(_) => arguments.push(w.value),
        None => arguments,
    };
    let next = pending[ready.len() as int];
    let waiting = FrameModel::Call(paren, Some(target), ready, pending);
    let first = eval(next, w, host, fuel);
    law_eval(next, m.push(waiting), output, host, fuel);
    lemma_under(m, waiting, first);
    let inner = m.push(waiting).push(FrameModel::Evaluate(next));
    match first {
        Outcome::Done(then, n) => {
            let held = landed(m, then);
            let made = gathered(paren, Some(target), ready, pending, then, host, fuel);
            let k = steps(made);
            assert(world(held, then.output) == then);
            law_gathered(paren, Some(target), ready, pending, held, then.output, host, fuel);
            lemma_first(start, output, host, n + k);
            lemma_add(inner, output, host, n, k);
            assert(landed(held, then) == held);
        },
        _ => {
            lemma_first(start, output, host, steps(first));
        },
    }
}

/// A call of a function with its arguments at hand: the body runs in a
/// scope of its own inside the global scope, then the caller's scopes are
/// back.
#[verifier::rlimit(50)]
proof fn lemma_gathered_function(
    paren: TokenModel,
    callee: Option<ObjectModel>,
    arguments: Seq<ObjectModel>,
    pending: Seq<ExprModel>,
    m: MachineModel,
    output: Seq<RenderedModel>,
    host: HostModel,
    fuel: nat,
)
    requires
        m.valid(),
        !m.awaiting,
        !(gathered(paren, callee, arguments, pending, world(m, output), host, fuel) is Unfinished),
        ready_of(callee, arguments, world(m, output)).len() >= pending.len(),
        target_of(callee, world(m, output)) is Function,
        ready_of(callee, arguments, world(m, output)).len() == arity_of(
            target_of(callee, world(m, output)),
        ),
    ensures
        hosted(
            m.push(FrameModel::Call(paren, callee, arguments, pending)),
            output,
            host,
            steps(gathered(paren, callee, arguments, pending, world(m, output), host, fuel)),
        ) == arrival(
            m,
            gathered(paren, callee, arguments, pending, world(m, output), host, fuel),
        ),
        balanced(m, gathered(paren, callee, arguments, pending, world(m, output), host, fuel)),
        rooted(gathered(paren, callee, arguments, pending, world(m, output), host, fuel)),
    decreases fuel, 0nat, pending, 2 * room(callee, arguments, pending),
{
    let w = world(m, output);
    let frame = FrameModel::Call(paren, callee, arguments, pending);
    let start = m.push(frame);
    lemma_top(m, frame);
    assert(landed(m, w) == m);
    let target = match callee {
        Some(held) => held,
        None => w.value,
    };
    let ready = match callee {
        Some(_) => arguments.push(w.value),
        None => arguments,
    };
    match target {
        ObjectModel::Function(function) => {
            let inside = seq![
                m.scopes[0],
                bound(function.params, ready, function.params.len()),
            ];
            let caller = m.scopes.subrange(1, m.scopes.len() as int);
            let leave = FrameModel::Return(caller);
            let base = m.with_scopes(inside);
            let body = exec_all(function.body, 0, w.with_scopes(inside), host, (fuel - 1) as nat);
            assert(world(base.push(leave), output) == w.with_scopes(inside));
            law_exec_all(function.body, 0, base.push(leave), output, host, (fuel - 1) as nat);
            lemma_under(base, leave, body);
            let entered = base.push(leave).push(FrameModel::Sequence(function.body, 0));
            match body {
                Outcome::Done(then, n) => {
                    lemma_first(start, output, host, n + 1);
                    lemma_add(entered, output, host, n, 1);
                    let held = landed(base, then);
                    lemma_top(held, leave);
                    lemma_once(held.push(leave), then.output, host);
                    let back = seq![then.scopes[0]] + caller;
                    assert(back.len() == m.scopes.len());
                },
                _ => {
                    lemma_first(start, output, host, steps(body));
                },
            }
        },
        _ => {},
    }
}

/// The interpreter runs a list of statements as the recursion over the
/// tree says.
#[verifier::rlimit(50)]
pub proof fn law_exec_all(
    statements: Seq<StmtModel>,
    next: nat,
    m: MachineModel,
    output: Seq<RenderedModel>,
    host: HostModel,
    fuel: nat,
)
    requires
        m.valid(),
        !m.awaiting,
        !(exec_all(statements, next, world(m, output), host, fuel) is Unfinished),
    ensures
        hosted(
            m.push(FrameModel::Sequence(statements, next)),
            output,
            host,
            steps(exec_all(statements, next, world(m, output), host, fuel)),
        ) == arrival(m, exec_all(statements, next, world(m, output), host, fuel)),
        balanced(m, exec_all(statements, next, world(m, output), host, fuel)),
        rooted(exec_all(statements, next, world(m, output), host, fuel)),
    decreases fuel, 1nat, statements, statements.len() - next,
{
    let w = world(m, output);
    let frame = FrameModel::Sequence(statements, next);
    let start = m.push(frame);
    lemma_top(m, frame);
    assert(landed(m, w) == m);
    if next < statements.len() {
        let rest = FrameModel::Sequence(statements, next + 1);
        let stmt = statements[next as int];
        let first = exec(stmt, w, host, fuel);
        law_exec(stmt, m.push(rest), output, host, fuel);
        lemma_under(m, rest, first);
        let inner = m.push(rest).push(FrameModel::Execute(stmt));
        match first {
            Outcome::Done(then, n) => {
                let held = landed(m, then);
                let others = exec_all(statements, next + 1, then, host, fuel);
                let k = steps(others);
                assert(world(held, then.output) == then);
                law_exec_all(statements, next + 1, held, then.output, host, fuel);
                lemma_first(start, output, host, n + k);
                lemma_add(inner, output, host, n, k);
                assert(landed(held, then) == held);
            },
            _ => {
                lemma_first(start, output, host, steps(first));
            },
        }
    } else {
        lemma_once(start, output, host);
    }
}

/// The interpreter runs a statement as the recursion over the tree says.
#[verifier::rlimit(50)]
pub proof fn law_exec(
    stmt: StmtModel,
    m: MachineModel,
    output: Seq<RenderedModel>,
    host: HostModel,
    fuel: nat,
)
    requires
        m.valid(),
        !m.awaiting,
        !(exec(stmt, world(m, output), host, fuel) is Unfinished),
    ensures
        hosted(
            m.push(FrameModel::Execute(stmt)),
            output,
            host,
            steps(exec(stmt, world(m, output), host, fuel)),
        ) == arrival(m, exec(stmt, world(m, output), host, fuel)),
        balanced(m, exec(stmt, world(m, output), host, fuel)),
        rooted(exec(stmt, world(m, output), host, fuel)),
    decreases fuel, 1nat, stmt, 1nat,
{
    let w = world(m, output);
    let start = m.push(FrameModel::Execute(stmt));
    lemma_top(m, FrameModel::Execute(stmt));
    assert(landed(m, w) == m);
    match stmt {
        StmtModel::Block(statements) => {
            let inside = m.scopes.push(Map::empty());
            let leave = FrameModel::LeaveScope;
            let base = m.with_scopes(inside);
            let body = exec_all(statements, 0, w.with_scopes(inside), host, fuel);
            assert(world(base.push(leave), output) == w.with_scopes(inside));
            law_exec_all(statements, 0, base.push(leave), output, host, fuel);
            lemma_under(base, leave, body);
            let entered = base.push(leave).push(FrameModel::Sequence(statements, 0));
            match body {
                Outcome::Done(then, n) => {
                    lemma_first(start, output, host, n + 1);
                    lemma_add(entered, output, host, n, 1);
                    let held = landed(base, then);
                    lemma_top(held, leave);
                    lemma_once(held.push(leave), then.output, host);
                },
                _ => {
                    lemma_first(start, output, host, steps(body));
                },
            }
        },
        StmtModel::Expression(expression) => {
            law_eval(expression, m, output, host, fuel);
            lemma_first(start, output, host, steps(eval(expression, w, host, fuel)));
        },
        StmtModel::Function(_) => {
            lemma_once(start, output, host);
        },
        StmtModel::If(condition, then_branch, else_branch) => {
            let frame = FrameModel::Branch(
                *then_branch,
                match else_branch {
                    Some(branch) => Some(*branch),
                    None => None,
                },
            );
            let first = eval(condition, w, host, fuel);
            law_eval(condition, m.push(frame), output, host, fuel);
            lemma_under(m, frame, first);
            let inner = m.push(frame).push(FrameModel::Evaluate(condition));
            match first {
                Outcome::Done(then, n) => {
                    let held = landed(m, then);
                    lemma_top(held, frame);
                    assert(world(held, then.output) == then);
                    assert(landed(held, then) == held);
                    if truthy(then.value) {
                        let k = steps(exec(*then_branch, then, host, fuel));
                        law_exec(*then_branch, held, then.output, host, fuel);
                        lemma_first(start, output, host, n + 1 + k);
                        lemma_add(inner, output, host, n, 1 + k);
                        lemma_first(held.push(frame), then.output, host, k);
                    } else {
                        match else_branch {
                            Some(branch) => {
                                let k = steps(exec(*branch, then, host, fuel));
                                law_exec(*branch, held, then.output, host, fuel);
                                lemma_first(start, output, host, n + 1 + k);
                                lemma_add(inner, output, host, n, 1 + k);
                                lemma_first(held.push(frame), then.output, host, k);
                            },
                            None => {
                                lemma_first(start, output, host, n + 1);
                                lemma_add(inner, output, host, n, 1);
                                lemma_once(held.push(frame), then.output, host);
                            },
                        }
                    }
                },
                _ => {
                    lemma_first(start, output, host, steps(first));
                },
            }
        },
        StmtModel::Print(expression) => {
            let frame = FrameModel::Print;
            let first = eval(expression, w, host, fuel);
            law_eval(expression, m.push(frame), output, host, fuel);
            lemma_under(m, frame, first);
            let inner = m.push(frame).push(FrameModel::Evaluate(expression));
            match first {
                Outcome::Done(then, n) => {
                    lemma_first(start, output, host, n + 1);
                    lemma_add(inner, output, host, n, 1);
                    lemma_top(landed(m, then), frame);
                    lemma_once(landed(m, then).push(frame), then.output, host);
                },
                _ => {
                    lemma_first(start, output, host, steps(first));
                },
            }
        },
        StmtModel::Var(name, initializer) => match initializer {
            Some(expression) => {
                let frame = FrameModel::Define(name);
                let first = eval(expression, w, host, fuel);
                law_eval(expression, m.push(frame), output, host, fuel);
                lemma_under(m, frame, first);
                let inner = m.push(frame).push(FrameModel::Evaluate(expression));
                match first {
                    Outcome::Done(then, n) => {
                        lemma_first(start, output, host, n + 1);
                        lemma_add(inner, output, host, n, 1);
                        lemma_top(landed(m, then), frame);
                        lemma_once(landed(m, then).push(frame), then.output, host);
                    },
                    _ => {
                        lemma_first(start, output, host, steps(first));
                    },
                }
            },
            None => {
                lemma_once(start, output, host);
            },
        },
        StmtModel::While(condition, body) => {
            law_looped(stmt, m, output, host, fuel);
            lemma_first(start, output, host, steps(looped(stmt, w, host, fuel)));
        },
    }
}

/// The interpreter takes the turns of a loop as the recursion over the
/// tree says.
#[verifier::rlimit(50)]
pub proof fn law_looped(
    stmt: StmtModel,
    m: MachineModel,
    output: Seq<RenderedModel>,
    host: HostModel,
    fuel: nat,
)
    requires
        stmt is While,
        m.valid(),
        !m.awaiting,
        !(looped(stmt, world(m, output), host, fuel) is Unfinished),
    ensures
        hosted(
            m.push(FrameModel::Loop(stmt->While_0, *stmt->While_1)).push(
                FrameModel::Evaluate(stmt->While_0),
            ),
            output,
            host,
            steps(looped(stmt, world(m, output), host, fuel)),
        ) == arrival(m, looped(stmt, world(m, output), host, fuel)),
        balanced(m, looped(stmt, world(m, output), host, fuel)),
        rooted(looped(stmt, world(m, output), host, fuel)),
    decreases fuel, 1nat, stmt, 0nat,
{
    let w = world(m, output);
    assert(landed(m, w) == m);
    match stmt {
        StmtModel::While(condition, body) => {
            let frame = FrameModel::Loop(condition, *body);
            let first = eval(condition, w, host, fuel);
            law_eval(condition, m.push(frame), output, host, fuel);
            lemma_under(m, frame, first);
            let inner = m.push(frame).push(FrameModel::Evaluate(condition));
            match first {
                Outcome::Done(then, n) => {
                    let held = landed(m, then);
                    lemma_top(held, frame);
                    assert(world(held, then.output) == then);
                    if truthy(then.value) {
                        let again = held.push(frame).push(FrameModel::Evaluate(condition));
                        let turn = exec(*body, then, host, fuel);
                        assert(world(again, then.output) == then);
                        law_exec(*body, again, then.output, host, fuel);
                        match turn {
                            Outcome::Done(after, k) => {
                                let onward = landed(m, after);
                                let rest = looped(stmt, after, host, (fuel - 1) as nat);
                                let j = steps(rest);
                                assert(world(onward, after.output) == after);
                                law_looped(stmt, onward, after.output, host, (fuel - 1) as nat);
                                lemma_add(inner, output, host, n, 1 + k + j);
                                lemma_first(held.push(frame), then.output, host, k + j);
                                lemma_add(
                                    again.push(FrameModel::Execute(*body)),
                                    then.output,
                                    host,
                                    k,
                                    j,
                                );
                                assert(landed(again, after) == onward.push(frame).push(
                                    FrameModel::Evaluate(condition),
                                ));
                                assert(landed(onward, after) == onward);
                            },
                            Outcome::Failed(error, after, k) => {
                                lemma_add(inner, output, host, n, 1 + k);
                                lemma_first(held.push(frame), then.output, host, k);
                            },
                            Outcome::Unfinished => {},
                        }
                    } else {
                        lemma_add(inner, output, host, n, 1);
                        lemma_once(held.push(frame), then.output, host);
                        assert(landed(held, then) == held);
                    }
                },
                _ => {},
            }
        },
        _ => {},
    }
}


/// A program handed to a fresh interpreter and run by a host does what the
/// recursion over its statements says: it prints the same lines in the
/// same order, leaves the same global scope, and fails with the same
/// failure or not at all.
pub proof fn law_program(statements: Seq<StmtModel>, host: HostModel, fuel: nat)
    requires
        !(exec_all(statements, 0, world(initial(), Seq::empty()), host, fuel) is Unfinished),
    ensures
        ({
            let outcome = exec_all(statements, 0, world(initial(), Seq::empty()), host, fuel);
            let loaded = MachineModel {
                control: seq![FrameModel::Sequence(statements, 0)] + initial().control,
                ..initial()
            };
            hosted(loaded, Seq::empty(), host, steps(outcome)) == arrival(initial(), outcome)
        }),
{
    let loaded = MachineModel {
        control: seq![FrameModel::Sequence(statements, 0)] + initial().control,
        ..initial()
    };
    assert(loaded.control =~= initial().push(FrameModel::Sequence(statements, 0)).control);
    law_exec_all(statements, 0, initial(), Seq::empty(), host, fuel);
}

} // verus!
