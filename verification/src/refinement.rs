//! The machine does what the program means.
//!
//! The state of a machine stands for the rest of a run: what is still to be
//! printed, how the run ends, and the environment that it ends with. Each
//! step keeps to that, so a program that is run on the machine, step by
//! step, prints and ends as its meaning says, whatever the answers to the
//! machine's requests for arithmetic are.

use vstd::prelude::*;

use crate::ast::{BinOp, ExprView, StmtView};
use crate::interpreter::{
    assigned, declared, entered, left, lookup, type_of, RuntimeErrorView, Scope, Value,
};
use crate::machine::{
    error_at, lemma_push, lemma_step_makes_progress, resumed, settled, start, step, step_eval,
    step_next, step_return, unwound, work, ControlView, EventView, FrameView, MachineView,
    RequestView, StepView,
};
use crate::semantics::{
    apply_binary, apply_unary, condition_message, display, eval, exec, exec_from, followed_by,
    lost_target_message, run, Applied, Arithmetic, Executed,
};

verus! {

/// The value of a binary operator on two values, once the arithmetic, if
/// there is any, is done.
pub open spec fn applied(
    operator: BinOp,
    l: Value,
    r: Value,
    index: nat,
    len: nat,
    n: Arithmetic,
) -> Result<Value, RuntimeErrorView> {
    match apply_binary(operator, l, r) {
        Applied::Value(v) => Ok(v),
        Applied::Compute(op, a, b) => Ok(Value::Number((n.compute)(op, a, b))),
        Applied::Failure(message) => Err(error_at(message, index, len)),
    }
}

/// What is left of the run once the expression under evaluation has come
/// to `r`: the frames of the stack are worked off from the top.
pub open spec fn rest_after_value(
    r: Result<Value, RuntimeErrorView>,
    stack: Seq<FrameView>,
    env: Seq<Scope>,
    n: Arithmetic,
) -> Executed
    decreases stack.len(), 1nat,
{
    match r {
        Err(error) => Executed {
            result: Err(error),
            env: unwound(stack, env),
            output: Seq::empty(),
        },
        Ok(v) => if stack.len() == 0 {
            Executed { result: Ok(()), env, output: Seq::empty() }
        } else {
            let rest = stack.drop_last();
            match stack.last() {
                FrameView::Unary { operator, index, len } => rest_after_value(
                    match apply_unary(operator, v) {
                        Ok(value) => Ok(value),
                        Err(message) => Err(error_at(message, index, len)),
                    },
                    rest,
                    env,
                    n,
                ),
                FrameView::BinaryLeft { operator, right, index, len } => {
                    let second = eval(right, env, n);
                    rest_after_value(
                        match second.result {
                            Err(error) => Err(error),
                            Ok(rv) => applied(operator, v, rv, index, len, n),
                        },
                        rest,
                        second.env,
                        n,
                    )
                },
                FrameView::BinaryRight { operator, left, index, len } => rest_after_value(
                    applied(operator, left, v, index, len, n),
                    rest,
                    env,
                    n,
                ),
                FrameView::Condition { left, right, index, len } => match v {
                    Value::Bool(b) => {
                        let branch = eval(
                            if b {
                                left
                            } else {
                                right
                            },
                            env,
                            n,
                        );
                        rest_after_value(branch.result, rest, branch.env, n)
                    },
                    _ => rest_after_value(
                        Err(error_at(condition_message(type_of(v)), index, len)),
                        rest,
                        env,
                        n,
                    ),
                },
                FrameView::Assign { key, index, len } => match assigned(env, key, v) {
                    Some(written) => rest_after_value(Ok(v), rest, written, n),
                    None => rest_after_value(
                        Err(error_at(lost_target_message(key), index, len)),
                        rest,
                        env,
                        n,
                    ),
                },
                FrameView::Discard => rest_after_statement(rest, env, n),
                FrameView::Print => followed_by(
                    seq![display(v, n)],
                    rest_after_statement(rest, env, n),
                ),
                FrameView::Declare { name } => rest_after_statement(
                    rest,
                    declared(env, name, Some(v)),
                    n,
                ),
                FrameView::Rest { .. } => Executed { result: Ok(()), env, output: Seq::empty() },
            }
        },
    }
}

/// What is left of the run once the statement under way is done: the
/// lists of statements on the stack are run to their ends, from the top.
pub open spec fn rest_after_statement(stack: Seq<FrameView>, env: Seq<Scope>, n: Arithmetic) -> Executed
    decreases stack.len(), 0nat,
{
    if stack.len() == 0 {
        Executed { result: Ok(()), env, output: Seq::empty() }
    } else {
        let rest = stack.drop_last();
        match stack.last() {
            FrameView::Rest { stmts, next, block } => {
                let body = exec_from(stmts, next as int, env, n);
                match body.result {
                    Err(error) => Executed {
                        result: Err(error),
                        env: unwound(stack, body.env),
                        output: body.output,
                    },
                    Ok(_) => followed_by(
                        body.output,
                        rest_after_statement(
                            rest,
                            if block {
                                left(body.env)
                            } else {
                                body.env
                            },
                            n,
                        ),
                    ),
                }
            },
            _ => Executed { result: Ok(()), env, output: Seq::empty() },
        }
    }
}

/// What is left of the run of a machine: how it ends, the chain of scopes
/// that it ends with, and the lines that it still asks to print, for the
/// arithmetic `n`. A machine that waits for an answer goes on with the
/// answer that `n` gives.
pub open spec fn rest_of_run(m: MachineView, n: Arithmetic) -> Executed {
    match m.control {
        ControlView::Eval(e) => {
            let value = eval(e, m.env, n);
            rest_after_value(value.result, m.stack, value.env, n)
        },
        ControlView::Return(v) => rest_after_value(Ok(v), m.stack, m.env, n),
        ControlView::Next => rest_after_statement(m.stack, m.env, n),
        ControlView::Fail(error) => rest_after_value(Err(error), m.stack, m.env, n),
        ControlView::Await(RequestView::ReadNumber(text)) => rest_after_value(
            Ok(Value::Number((n.read)(text))),
            m.stack,
            m.env,
            n,
        ),
        ControlView::Await(RequestView::Compute(op, a, b)) => rest_after_value(
            Ok(Value::Number((n.compute)(op, a, b))),
            m.stack,
            m.env,
            n,
        ),
        ControlView::Await(RequestView::WriteNumber(bits)) => followed_by(
            seq![(n.write)(bits)],
            rest_after_statement(m.stack, m.env, n),
        ),
        ControlView::Await(RequestView::Print(_)) => rest_after_statement(m.stack, m.env, n),
    }
}

/// Whether `event` is the answer that the arithmetic `n` gives to
/// `request`.
pub open spec fn answers(n: Arithmetic, request: RequestView, event: EventView) -> bool {
    match request {
        RequestView::ReadNumber(text) => event == EventView::Number((n.read)(text)),
        RequestView::Compute(op, a, b) => event == EventView::Number((n.compute)(op, a, b)),
        RequestView::WriteNumber(bits) => event == EventView::Text((n.write)(bits)),
        RequestView::Print(_) => event == EventView::Printed,
    }
}

/// Whether the step `s` of a machine with the rest of run `before` keeps
/// to it: a step that goes on, or that asks for anything but printing,
/// leaves the rest of the run as it was; a step that asks to print a line
/// takes that line off the front of the output; and a step that ends the
/// run ends it as the rest of the run said, with nothing left to print.
pub open spec fn keeps_to(s: StepView, before: Executed, n: Arithmetic) -> bool {
    match s {
        StepView::Continue(after) => rest_of_run(after, n) == before,
        StepView::Request(after, RequestView::Print(line)) => {
            &&& after.control == ControlView::Await(RequestView::Print(line))
            &&& before == followed_by(seq![line], rest_of_run(after, n))
        },
        StepView::Request(after, request) => {
            &&& after.control == ControlView::Await(request)
            &&& rest_of_run(after, n) == before
        },
        StepView::Finished(env, result) => before == (Executed {
            result,
            env,
            output: Seq::empty(),
        }),
    }
}

/// An error ends the run in the same way below a frame that is no block.
proof fn lemma_error_below(
    error: RuntimeErrorView,
    stack: Seq<FrameView>,
    frame: FrameView,
    env: Seq<Scope>,
    n: Arithmetic,
)
    requires
        !(frame matches FrameView::Rest { block: true, .. }),
    ensures
        rest_after_value(Err(error), stack.push(frame), env, n) == rest_after_value(
            Err(error),
            stack,
            env,
            n,
        ),
{
    lemma_push(stack, frame);
}

proof fn lemma_step_eval_keeps(e: ExprView, stack: Seq<FrameView>, env: Seq<Scope>, n: Arithmetic)
    ensures
        keeps_to(
            step_eval(e, stack, env),
            rest_of_run(MachineView { control: ControlView::Eval(e), stack, env }, n),
            n,
        ),
{
    match e {
        ExprView::Literal { .. } => {},
        ExprView::Grouping { .. } => {},
        ExprView::Variable { .. } => {},
        ExprView::Assign { index, len, key, value } => {
            if lookup(env, key) is Some {
                let frame = FrameView::Assign { key, index, len };
                lemma_push(stack, frame);
                let right = eval(*value, env, n);
                if right.result is Err {
                    lemma_error_below(right.result->Err_0, stack, frame, right.env, n);
                }
            }
        },
        ExprView::Unary { operator, right, index, len } => {
            let frame = FrameView::Unary { operator, index, len };
            lemma_push(stack, frame);
            let operand = eval(*right, env, n);
            if operand.result is Err {
                lemma_error_below(operand.result->Err_0, stack, frame, operand.env, n);
            }
        },
        ExprView::Ternary { condition, left, right, index, len } => {
            let frame = FrameView::Condition { left: *left, right: *right, index, len };
            lemma_push(stack, frame);
            let chosen = eval(*condition, env, n);
            if chosen.result is Err {
                lemma_error_below(chosen.result->Err_0, stack, frame, chosen.env, n);
            }
        },
        ExprView::Binary { left, operator, right, index, len } => {
            let frame = FrameView::BinaryLeft { operator, right: *right, index, len };
            lemma_push(stack, frame);
            let first = eval(*left, env, n);
            if first.result is Err {
                lemma_error_below(first.result->Err_0, stack, frame, first.env, n);
            }
        },
    }
}

proof fn lemma_step_return_keeps(v: Value, stack: Seq<FrameView>, env: Seq<Scope>, n: Arithmetic)
    ensures
        keeps_to(
            step_return(v, stack, env),
            rest_of_run(MachineView { control: ControlView::Return(v), stack, env }, n),
            n,
        ),
{
    if stack.len() > 0 {
        let rest = stack.drop_last();
        match stack.last() {
            FrameView::BinaryLeft { operator, right, index, len } => {
                let frame = FrameView::BinaryRight { operator, left: v, index, len };
                lemma_push(rest, frame);
                let second = eval(right, env, n);
                if second.result is Err {
                    lemma_error_below(second.result->Err_0, rest, frame, second.env, n);
                }
            },
            _ => {},
        }
    }
}

/// The output of a run does not depend on how its parts are grouped.
proof fn lemma_followed_by_twice(a: Seq<Seq<char>>, b: Seq<Seq<char>>, then: Executed)
    ensures
        followed_by(a, followed_by(b, then)) == followed_by(a + b, then),
        followed_by(Seq::empty(), then) == then,
{
    assert(a + (b + then.output) =~= (a + b) + then.output);
    assert(Seq::<Seq<char>>::empty() + then.output =~= then.output);
}

proof fn lemma_step_next_keeps(stack: Seq<FrameView>, env: Seq<Scope>, n: Arithmetic)
    ensures
        keeps_to(
            step_next(stack, env),
            rest_of_run(MachineView { control: ControlView::Next, stack, env }, n),
            n,
        ),
{
    if stack.len() > 0 {
        let rest = stack.drop_last();
        match stack.last() {
            FrameView::Rest { stmts, next, block } => {
                assert(stack =~= rest.push(stack.last()));
                if next < stmts.len() {
                    let s = stmts[next as int];
                    let later = FrameView::Rest { stmts, next: next + 1, block };
                    let below = rest.push(later);
                    lemma_push(rest, later);
                    let first = exec(s, env, n);
                    let tail = exec_from(stmts, next + 1 as int, first.env, n);
                    lemma_followed_by_twice(first.output, tail.output, tail);
                    assert(unwound(below, first.env) == unwound(stack, first.env));
                    match s {
                        StmtView::Expression(e) => {
                            let frame = FrameView::Discard;
                            lemma_push(below, frame);
                            let value = eval(e, env, n);
                            if value.result is Err {
                                lemma_error_below(value.result->Err_0, below, frame, value.env, n);
                            } else {
                                lemma_next_in_list(rest, stmts, next, block, env, n);
                            }
                        },
                        StmtView::Print(e) => {
                            let frame = FrameView::Print;
                            lemma_push(below, frame);
                            let value = eval(e, env, n);
                            if value.result is Err {
                                lemma_error_below(value.result->Err_0, below, frame, value.env, n);
                            } else {
                                lemma_next_in_list(rest, stmts, next, block, env, n);
                            }
                        },
                        StmtView::Variable(name, Some(e)) => {
                            let frame = FrameView::Declare { name };
                            lemma_push(below, frame);
                            let value = eval(e, env, n);
                            if value.result is Err {
                                lemma_error_below(value.result->Err_0, below, frame, value.env, n);
                            } else {
                                lemma_next_in_list(rest, stmts, next, block, env, n);
                            }
                        },
                        StmtView::Variable(name, None) => {
                            lemma_next_in_list(rest, stmts, next, block, env, n);
                        },
                        StmtView::Block(inner) => {
                            let frame = FrameView::Rest { stmts: inner, next: 0, block: true };
                            lemma_push(below, frame);
                            let run_inner = exec_from(inner, 0, entered(env), n);
                            if run_inner.result is Err {
                                assert(unwound(below.push(frame), run_inner.env) == unwound(
                                    below,
                                    left(run_inner.env),
                                ));
                                assert(unwound(below, left(run_inner.env)) == unwound(
                                    stack,
                                    left(run_inner.env),
                                ));
                            } else {
                                lemma_next_in_list(rest, stmts, next, block, env, n);
                            }
                        },
                    }
                } else {
                    lemma_followed_by_twice(
                        Seq::empty(),
                        Seq::empty(),
                        rest_after_statement(
                            rest,
                            if block {
                                left(env)
                            } else {
                                env
                            },
                            n,
                        ),
                    );
                }
            },
            _ => {},
        }
    }
}

/// The rest of a list of statements whose statement at `next` runs
/// without error: the output of that statement, and then the rest of the
/// list from `next + 1` on.
proof fn lemma_next_in_list(
    rest: Seq<FrameView>,
    stmts: Seq<StmtView>,
    next: nat,
    block: bool,
    env: Seq<Scope>,
    n: Arithmetic,
)
    requires
        next < stmts.len(),
        exec(stmts[next as int], env, n).result is Ok,
    ensures
        rest_after_statement(rest.push(FrameView::Rest { stmts, next, block }), env, n)
            == followed_by(
            exec(stmts[next as int], env, n).output,
            rest_after_statement(
                rest.push(FrameView::Rest { stmts, next: next + 1, block }),
                exec(stmts[next as int], env, n).env,
                n,
            ),
        ),
{
    let first = exec(stmts[next as int], env, n);
    let now = FrameView::Rest { stmts, next, block };
    let later = FrameView::Rest { stmts, next: next + 1, block };
    lemma_push(rest, now);
    lemma_push(rest, later);
    let tail = exec_from(stmts, next + 1 as int, first.env, n);
    let body = exec_from(stmts, next as int, env, n);
    assert(body == followed_by(first.output, tail));
    assert(unwound(rest.push(later), tail.env) == unwound(rest.push(now), tail.env));
    if tail.result is Ok {
        let outer = rest_after_statement(
            rest,
            if block {
                left(tail.env)
            } else {
                tail.env
            },
            n,
        );
        lemma_followed_by_twice(first.output, tail.output, outer);
    }
}

/// Each step keeps to the rest of the run: whatever the arithmetic `n` is,
/// a machine that is handed, whenever it waits, the answer that `n` gives
/// goes through the run that `rest_of_run` describes.
pub proof fn lemma_step_keeps_to_run(m: MachineView, event: EventView, n: Arithmetic)
    requires
        m.control matches ControlView::Await(request) ==> answers(n, request, event),
    ensures
        keeps_to(step(m, event), rest_of_run(m, n), n),
{
    match m.control {
        ControlView::Eval(e) => lemma_step_eval_keeps(e, m.stack, m.env, n),
        ControlView::Return(v) => lemma_step_return_keeps(v, m.stack, m.env, n),
        ControlView::Next => lemma_step_next_keeps(m.stack, m.env, n),
        ControlView::Fail(error) => {},
        ControlView::Await(request) => {},
    }
}

/// A machine that is about to run a program has the whole run of the
/// program before it.
pub proof fn lemma_start_is_run(stmts: Seq<StmtView>, env: Seq<Scope>, n: Arithmetic)
    ensures
        rest_of_run(start(stmts, env), n) == run(stmts, env, n),
{
    let frame = FrameView::Rest { stmts, next: 0, block: false };
    let stack = seq![frame];
    let nothing = Seq::<FrameView>::empty();
    assert(stack.drop_last() =~= nothing);
    assert(stack.last() == frame);
    let body = exec_from(stmts, 0, env, n);
    assert(unwound(nothing, body.env) == body.env);
    assert(unwound(stack, body.env) == body.env);
    let end = rest_after_statement(nothing, body.env, n);
    assert(end == Executed { result: Ok(()), env: body.env, output: Seq::empty() });
    assert(body.output + Seq::<Seq<char>>::empty() =~= body.output);
    match body.result {
        Ok(unit) => {
            assert(followed_by(body.output, end) == body);
        },
        Err(error) => {},
    }
}

/// Stepping until the machine asks for something or ends the run keeps to
/// the rest of the run, and does not end in a step that goes on.
pub proof fn lemma_settled_keeps_to_run(m: MachineView, n: Arithmetic)
    requires
        !(m.control is Await),
    ensures
        keeps_to(settled(m), rest_of_run(m, n), n),
        !(settled(m) is Continue),
    decreases work(m),
{
    lemma_step_keeps_to_run(m, EventView::Proceed, n);
    lemma_step_makes_progress(m, EventView::Proceed);
    match step(m, EventView::Proceed) {
        StepView::Continue(after) => {
            lemma_settled_keeps_to_run(after, n);
        },
        _ => {},
    }
}

/// The answer that the arithmetic `n` gives to what the machine waits for.
pub open spec fn answer(m: MachineView, n: Arithmetic) -> EventView {
    match m.control {
        ControlView::Await(RequestView::ReadNumber(text)) => EventView::Number((n.read)(text)),
        ControlView::Await(RequestView::Compute(op, a, b)) => EventView::Number(
            (n.compute)(op, a, b),
        ),
        ControlView::Await(RequestView::WriteNumber(bits)) => EventView::Text((n.write)(bits)),
        ControlView::Await(RequestView::Print(_)) => EventView::Printed,
        _ => EventView::Proceed,
    }
}

/// The run of a machine that is stepped to the end, and handed the answer
/// of the arithmetic `n` whenever it waits: how the machine ends, the
/// environment that it hands back, and the lines that it asks to print.
pub open spec fn driven(m: MachineView, n: Arithmetic) -> Executed
    decreases work(m),
    via driven_decreases
{
    match step(m, answer(m, n)) {
        StepView::Continue(after) => driven(after, n),
        StepView::Request(after, RequestView::Print(line)) => followed_by(
            seq![line],
            driven(after, n),
        ),
        StepView::Request(after, _) => driven(after, n),
        StepView::Finished(env, result) => Executed { result, env, output: Seq::empty() },
    }
}

#[via_fn]
proof fn driven_decreases(m: MachineView, n: Arithmetic) {
    lemma_step_makes_progress(m, answer(m, n));
}

/// A machine that is driven to the end goes through the rest of its run.
pub proof fn lemma_driven_is_rest_of_run(m: MachineView, n: Arithmetic)
    ensures
        driven(m, n) == rest_of_run(m, n),
    decreases work(m),
{
    let event = answer(m, n);
    lemma_step_keeps_to_run(m, event, n);
    lemma_step_makes_progress(m, event);
    match step(m, event) {
        StepView::Continue(after) => {
            lemma_driven_is_rest_of_run(after, n);
        },
        StepView::Request(after, _) => {
            lemma_driven_is_rest_of_run(after, n);
        },
        StepView::Finished(_, _) => {},
    }
}

/// A program that is run on the machine does what the program means: the
/// machine asks to print the lines that the program prints, in order, ends
/// as the program ends, and hands back the environment that the program
/// leaves.
pub proof fn lemma_machine_runs_program(stmts: Seq<StmtView>, env: Seq<Scope>, n: Arithmetic)
    ensures
        driven(start(stmts, env), n) == run(stmts, env, n),
{
    lemma_driven_is_rest_of_run(start(stmts, env), n);
    lemma_start_is_run(stmts, env, n);
}

/// Resuming the machine with the answer that it waits for keeps to the
/// rest of the run, and does not end in a step that goes on.
pub proof fn lemma_resumed_keeps_to_run(m: MachineView, event: EventView, n: Arithmetic)
    requires
        m.control matches ControlView::Await(request) ==> answers(n, request, event),
    ensures
        keeps_to(resumed(m, event), rest_of_run(m, n), n),
        !(resumed(m, event) is Continue),
{
    lemma_step_keeps_to_run(m, event, n);
    match step(m, event) {
        StepView::Continue(after) => {
            lemma_settled_keeps_to_run(after, n);
        },
        _ => {},
    }
}

} // verus!
