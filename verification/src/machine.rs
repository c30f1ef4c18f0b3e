//! The evaluator, as a machine that is run from outside.
//!
//! Running a program alternates between decisions, which are made here,
//! and work that is done elsewhere: arithmetic on doubles, reading a
//! numeral, writing a number, and printing a line. The machine takes one
//! step at a time. A step either goes on by itself, or asks for one piece
//! of outside work and waits for the answer, or ends the run and hands the
//! environment back.

use vstd::prelude::*;
use vstd::string::StringExecFns;

use crate::ast::{stmt_views, BinOp, Expr, ExprView, Literal, LiteralView, Stmt, StmtView, UnaryOp};
use crate::interpreter::{
    assigned, declared, entered, left, lookup, type_of, Environment, LoxResult, LoxRuntimeError,
    RuntimeErrorView, Scope, Value,
};
use crate::semantics::{
    apply_binary, apply_unary, binary_result, condition_message, lost_target_message,
    unary_result, unknown_target_message, unknown_variable_message, Applied, Outcome,
};

verus! {

/// A piece of outside work.
#[derive(Debug, PartialEq)]
pub enum Request {
    /// Read this numeral, digits with an optional fraction, as a double.
    /// The answer is `Event::Number`.
    ReadNumber(String),
    /// Apply this arithmetic operator, one of `Sum`, `Substraction`,
    /// `Product` and `Division`, to these two doubles. The answer is
    /// `Event::Number`.
    Compute(BinOp, u64, u64),
    /// Write this double as text. The answer is `Event::Text`.
    WriteNumber(u64),
    /// Print this line. The answer is `Event::Printed`.
    Print(String),
}

/// What a `Request` stands for.
pub enum RequestView {
    ReadNumber(Seq<char>),
    Compute(BinOp, u64, u64),
    WriteNumber(u64),
    Print(Seq<char>),
}

impl View for Request {
    type V = RequestView;

    open spec fn view(&self) -> RequestView {
        match self {
            Request::ReadNumber(text) => RequestView::ReadNumber(text@),
            Request::Compute(op, a, b) => RequestView::Compute(*op, *a, *b),
            Request::WriteNumber(bits) => RequestView::WriteNumber(*bits),
            Request::Print(line) => RequestView::Print(line@),
        }
    }
}

impl Clone for Request {
    fn clone(&self) -> (r: Request)
        ensures
            r@ == self@,
    {
        match self {
            Request::ReadNumber(text) => Request::ReadNumber(text.clone()),
            Request::Compute(op, a, b) => Request::Compute(*op, *a, *b),
            Request::WriteNumber(bits) => Request::WriteNumber(*bits),
            Request::Print(line) => Request::Print(line.clone()),
        }
    }
}

/// What is handed to the machine with a step.
#[derive(Debug, PartialEq)]
pub enum Event {
    /// Nothing: the machine is to go on.
    Proceed,
    /// The double that was asked for, by its bits.
    Number(u64),
    /// The text that was asked for.
    Text(String),
    /// The line was printed.
    Printed,
}

/// What an `Event` stands for.
pub enum EventView {
    Proceed,
    Number(u64),
    Text(Seq<char>),
    Printed,
}

impl View for Event {
    type V = EventView;

    open spec fn view(&self) -> EventView {
        match self {
            Event::Proceed => EventView::Proceed,
            Event::Number(bits) => EventView::Number(*bits),
            Event::Text(text) => EventView::Text(text@),
            Event::Printed => EventView::Printed,
        }
    }
}

/// What is left to do with the value of the expression under evaluation,
/// or after the statement under way: one entry of the machine's stack.
#[allow(inconsistent_fields)]
pub enum FrameView {
    /// Apply the unary operator of the node with this span to the value.
    Unary { operator: UnaryOp, index: nat, len: nat },
    /// The value is the left operand: evaluate the right one.
    BinaryLeft { operator: BinOp, right: ExprView, index: nat, len: nat },
    /// The value is the right operand: apply the operator.
    BinaryRight { operator: BinOp, left: Value, index: nat, len: nat },
    /// The value is the condition: evaluate the branch that it selects.
    Condition { left: ExprView, right: ExprView, index: nat, len: nat },
    /// Write the value to the variable.
    Assign { key: Seq<char>, index: nat, len: nat },
    /// Drop the value: an expression statement ends.
    Discard,
    /// Print the value: a print statement ends.
    Print,
    /// Declare the variable with the value: a declaration ends.
    Declare { name: Seq<char> },
    /// Run the statements from `next` on. For a block, leave its scope
    /// after the last one.
    Rest { stmts: Seq<StmtView>, next: nat, block: bool },
}

/// What the machine does next.
pub enum ControlView {
    /// Evaluate the expression.
    Eval(ExprView),
    /// Hand the value to the top of the stack.
    Return(Value),
    /// A statement is done: go on with the top of the stack.
    Next,
    /// End the run with the error.
    Fail(RuntimeErrorView),
    /// Wait for the answer to the request.
    Await(RequestView),
}

/// What an `Interpreter` stands for.
pub struct MachineView {
    pub control: ControlView,
    pub stack: Seq<FrameView>,
    pub env: Seq<Scope>,
}

/// What a `Step` stands for.
pub enum StepView {
    Continue(MachineView),
    Request(MachineView, RequestView),
    Finished(Seq<Scope>, Result<(), RuntimeErrorView>),
}

/// The step that goes on with the given control.
pub open spec fn go_on(control: ControlView, stack: Seq<FrameView>, env: Seq<Scope>) -> StepView {
    StepView::Continue(MachineView { control, stack, env })
}

/// The step that asks for outside work and waits for the answer.
pub open spec fn ask(request: RequestView, stack: Seq<FrameView>, env: Seq<Scope>) -> StepView {
    StepView::Request(MachineView { control: ControlView::Await(request), stack, env }, request)
}

/// A runtime error of the node with the given span.
pub open spec fn error_at(message: Seq<char>, index: nat, len: nat) -> RuntimeErrorView {
    RuntimeErrorView { message, index, len }
}

/// The chain of scopes after every block that the stack is inside of was
/// left.
pub open spec fn unwound(stack: Seq<FrameView>, env: Seq<Scope>) -> Seq<Scope>
    decreases stack.len(),
{
    if stack.len() == 0 {
        env
    } else {
        unwound(
            stack.drop_last(),
            match stack.last() {
                FrameView::Rest { block: true, .. } => left(env),
                _ => env,
            },
        )
    }
}

/// The step that starts the evaluation of `e`.
pub open spec fn step_eval(e: ExprView, stack: Seq<FrameView>, env: Seq<Scope>) -> StepView {
    match e {
        ExprView::Literal { value, .. } => match value {
            LiteralView::Number(text) => ask(RequestView::ReadNumber(text), stack, env),
            LiteralView::Str(text) => go_on(ControlView::Return(Value::Str(text)), stack, env),
            LiteralView::True => go_on(ControlView::Return(Value::Bool(true)), stack, env),
            LiteralView::False => go_on(ControlView::Return(Value::Bool(false)), stack, env),
            LiteralView::Nil => go_on(ControlView::Return(Value::Nil), stack, env),
        },
        ExprView::Grouping { expr, .. } => go_on(ControlView::Eval(*expr), stack, env),
        ExprView::Variable { index, len, value } => match lookup(env, value) {
            Some(Some(v)) => go_on(ControlView::Return(v), stack, env),
            Some(None) => go_on(ControlView::Return(Value::Nil), stack, env),
            None => go_on(
                ControlView::Fail(error_at(unknown_variable_message(), index, len)),
                stack,
                env,
            ),
        },
        ExprView::Assign { index, len, key, value } => if lookup(env, key) is None {
            go_on(ControlView::Fail(error_at(unknown_target_message(key), index, len)), stack, env)
        } else {
            go_on(
                ControlView::Eval(*value),
                stack.push(FrameView::Assign { key, index, len }),
                env,
            )
        },
        ExprView::Unary { operator, right, index, len } => go_on(
            ControlView::Eval(*right),
            stack.push(FrameView::Unary { operator, index, len }),
            env,
        ),
        ExprView::Ternary { condition, left, right, index, len } => go_on(
            ControlView::Eval(*condition),
            stack.push(FrameView::Condition { left: *left, right: *right, index, len }),
            env,
        ),
        ExprView::Binary { left, operator, right, index, len } => go_on(
            ControlView::Eval(*left),
            stack.push(FrameView::BinaryLeft { operator, right: *right, index, len }),
            env,
        ),
    }
}

/// The step that applies a binary operator to its two operands.
pub open spec fn step_apply(
    operator: BinOp,
    l: Value,
    r: Value,
    index: nat,
    len: nat,
    stack: Seq<FrameView>,
    env: Seq<Scope>,
) -> StepView {
    match apply_binary(operator, l, r) {
        Applied::Value(v) => go_on(ControlView::Return(v), stack, env),
        Applied::Compute(op, a, b) => ask(RequestView::Compute(op, a, b), stack, env),
        Applied::Failure(message) => go_on(
            ControlView::Fail(error_at(message, index, len)),
            stack,
            env,
        ),
    }
}

/// What printing a value asks for: a number is first to be written as
/// text; a text is printed as it is, a boolean as `true` or `false`, and
/// nil as `Nil`.
pub open spec fn print_request(v: Value) -> RequestView {
    match v {
        Value::Number(bits) => RequestView::WriteNumber(bits),
        Value::Str(text) => RequestView::Print(text),
        Value::Bool(b) => RequestView::Print(
            if b {
                "true"@
            } else {
                "false"@
            },
        ),
        Value::Nil => RequestView::Print("Nil"@),
    }
}

/// The step that hands the value `v` to the top of the stack.
pub open spec fn step_return(v: Value, stack: Seq<FrameView>, env: Seq<Scope>) -> StepView {
    if stack.len() == 0 {
        StepView::Finished(env, Ok(()))
    } else {
        let rest = stack.drop_last();
        match stack.last() {
            FrameView::Unary { operator, index, len } => match apply_unary(operator, v) {
                Ok(value) => go_on(ControlView::Return(value), rest, env),
                Err(message) => go_on(ControlView::Fail(error_at(message, index, len)), rest, env),
            },
            FrameView::BinaryLeft { operator, right, index, len } => go_on(
                ControlView::Eval(right),
                rest.push(FrameView::BinaryRight { operator, left: v, index, len }),
                env,
            ),
            FrameView::BinaryRight { operator, left, index, len } => step_apply(
                operator,
                left,
                v,
                index,
                len,
                rest,
                env,
            ),
            FrameView::Condition { left, right, index, len } => match v {
                Value::Bool(b) => go_on(
                    ControlView::Eval(
                        if b {
                            left
                        } else {
                            right
                        },
                    ),
                    rest,
                    env,
                ),
                _ => go_on(
                    ControlView::Fail(error_at(condition_message(type_of(v)), index, len)),
                    rest,
                    env,
                ),
            },
            FrameView::Assign { key, index, len } => match assigned(env, key, v) {
                Some(written) => go_on(ControlView::Return(v), rest, written),
                None => go_on(
                    ControlView::Fail(error_at(lost_target_message(key), index, len)),
                    rest,
                    env,
                ),
            },
            FrameView::Discard => go_on(ControlView::Next, rest, env),
            FrameView::Print => ask(print_request(v), rest, env),
            FrameView::Declare { name } => go_on(
                ControlView::Next,
                rest,
                declared(env, name, Some(v)),
            ),
            FrameView::Rest { .. } => StepView::Finished(env, Ok(())),
        }
    }
}

/// The step that starts the statement `s`, with the rest of its list on
/// top of the stack.
pub open spec fn step_statement(s: StmtView, stack: Seq<FrameView>, env: Seq<Scope>) -> StepView {
    match s {
        StmtView::Expression(e) => go_on(ControlView::Eval(e), stack.push(FrameView::Discard), env),
        StmtView::Print(e) => go_on(ControlView::Eval(e), stack.push(FrameView::Print), env),
        StmtView::Variable(name, Some(e)) => go_on(
            ControlView::Eval(e),
            stack.push(FrameView::Declare { name }),
            env,
        ),
        StmtView::Variable(name, None) => go_on(ControlView::Next, stack, declared(env, name, None)),
        StmtView::Block(stmts) => go_on(
            ControlView::Next,
            stack.push(FrameView::Rest { stmts, next: 0, block: true }),
            entered(env),
        ),
    }
}

/// The step after a statement is done: the next statement of the list on
/// top of the stack starts, or the list is done. When nothing is left, the
/// run ends.
pub open spec fn step_next(stack: Seq<FrameView>, env: Seq<Scope>) -> StepView {
    if stack.len() == 0 {
        StepView::Finished(env, Ok(()))
    } else {
        let rest = stack.drop_last();
        match stack.last() {
            FrameView::Rest { stmts, next, block } => if next < stmts.len() {
                step_statement(
                    stmts[next as int],
                    rest.push(FrameView::Rest { stmts, next: next + 1, block }),
                    env,
                )
            } else {
                go_on(
                    ControlView::Next,
                    rest,
                    if block {
                        left(env)
                    } else {
                        env
                    },
                )
            },
            _ => StepView::Finished(env, Ok(())),
        }
    }
}

/// The step of a machine that waits for the answer to `request`. An event
/// that is no answer to it changes nothing: the request is made again.
pub open spec fn step_await(
    request: RequestView,
    event: EventView,
    stack: Seq<FrameView>,
    env: Seq<Scope>,
) -> StepView {
    match (request, event) {
        (RequestView::ReadNumber(_), EventView::Number(bits)) => go_on(
            ControlView::Return(Value::Number(bits)),
            stack,
            env,
        ),
        (RequestView::Compute(_, _, _), EventView::Number(bits)) => go_on(
            ControlView::Return(Value::Number(bits)),
            stack,
            env,
        ),
        (RequestView::WriteNumber(_), EventView::Text(text)) => ask(
            RequestView::Print(text),
            stack,
            env,
        ),
        (RequestView::Print(_), EventView::Printed) => go_on(ControlView::Next, stack, env),
        _ => ask(request, stack, env),
    }
}

/// One step of the machine.
pub open spec fn step(m: MachineView, event: EventView) -> StepView {
    match m.control {
        ControlView::Eval(e) => step_eval(e, m.stack, m.env),
        ControlView::Return(v) => step_return(v, m.stack, m.env),
        ControlView::Next => step_next(m.stack, m.env),
        ControlView::Fail(error) => StepView::Finished(unwound(m.stack, m.env), Err(error)),
        ControlView::Await(request) => step_await(request, event, m.stack, m.env),
    }
}

/// The machine that is about to run `stmts` in `env`.
pub open spec fn start(stmts: Seq<StmtView>, env: Seq<Scope>) -> MachineView {
    MachineView {
        control: ControlView::Next,
        stack: seq![FrameView::Rest { stmts, next: 0, block: false }],
        env,
    }
}

/// Pushing a frame and taking it off again gives the stack back.
pub proof fn lemma_push(stack: Seq<FrameView>, frame: FrameView)
    ensures
        stack.push(frame).len() > 0,
        stack.push(frame).last() == frame,
        stack.push(frame).drop_last() == stack,
{
    assert(stack.push(frame).drop_last() =~= stack);
}

/// The number of nodes of an expression.
pub open spec fn expr_size(e: ExprView) -> nat
    decreases e,
{
    match e {
        ExprView::Literal { .. } => 1,
        ExprView::Variable { .. } => 1,
        ExprView::Grouping { expr, .. } => 1 + expr_size(*expr),
        ExprView::Unary { right, .. } => 1 + expr_size(*right),
        ExprView::Assign { value, .. } => 1 + expr_size(*value),
        ExprView::Binary { left, right, .. } => 1 + expr_size(*left) + expr_size(*right),
        ExprView::Ternary { condition, left, right, .. } => 1 + expr_size(*condition) + expr_size(
            *left,
        ) + expr_size(*right),
    }
}

/// A bound on the steps that a statement takes.
pub open spec fn stmt_work(s: StmtView) -> nat
    decreases s, 0nat,
{
    match s {
        StmtView::Expression(e) => 3 * expr_size(e) + 1,
        StmtView::Print(e) => 3 * expr_size(e) + 3,
        StmtView::Variable(_, Some(e)) => 3 * expr_size(e) + 1,
        StmtView::Variable(_, None) => 1,
        StmtView::Block(stmts) => list_work(stmts, 0) + 2,
    }
}

/// The sum of `stmt_work` over the statements `stmts[from..]`.
pub open spec fn list_work(stmts: Seq<StmtView>, from: int) -> nat
    decreases stmts, stmts.len() - from,
{
    if 0 <= from < stmts.len() {
        stmt_work(stmts[from]) + list_work(stmts, from + 1)
    } else {
        0
    }
}

/// A bound on the steps that a frame stands for.
pub open spec fn frame_work(frame: FrameView) -> nat {
    match frame {
        FrameView::Unary { .. } => 2,
        FrameView::BinaryLeft { right, .. } => 3 * expr_size(right) + 2,
        FrameView::BinaryRight { .. } => 2,
        FrameView::Condition { left, right, .. } => 3 * expr_size(left) + 3 * expr_size(right) + 2,
        FrameView::Assign { .. } => 2,
        FrameView::Discard => 1,
        FrameView::Print => 3,
        FrameView::Declare { .. } => 1,
        FrameView::Rest { stmts, next, .. } => list_work(stmts, next as int) + 1,
    }
}

/// The sum of `frame_work` over a stack.
pub open spec fn stack_work(stack: Seq<FrameView>) -> nat
    decreases stack.len(),
{
    if stack.len() == 0 {
        0
    } else {
        stack_work(stack.drop_last()) + frame_work(stack.last())
    }
}

/// A bound on the number of steps that are left of the run.
pub open spec fn work(m: MachineView) -> nat {
    stack_work(m.stack) + match m.control {
        ControlView::Eval(e) => 3 * expr_size(e),
        ControlView::Return(_) => 1,
        ControlView::Next => 1,
        ControlView::Fail(_) => 1,
        ControlView::Await(RequestView::WriteNumber(_)) => 3,
        ControlView::Await(_) => 2,
    }
}

/// Whether `event` is an answer of the kind that `request` asks for.
pub open spec fn fits(request: RequestView, event: EventView) -> bool {
    match request {
        RequestView::ReadNumber(_) => event is Number,
        RequestView::Compute(_, _, _) => event is Number,
        RequestView::WriteNumber(_) => event is Text,
        RequestView::Print(_) => event is Printed,
    }
}

/// Every expression has at least one node.
proof fn lemma_expr_size_positive(e: ExprView)
    ensures
        expr_size(e) >= 1,
{
}

proof fn lemma_stack_work_push(stack: Seq<FrameView>, frame: FrameView)
    ensures
        stack_work(stack.push(frame)) == stack_work(stack) + frame_work(frame),
{
    lemma_push(stack, frame);
}

/// A step leaves less work than there was, unless it is handed something
/// that is no answer to what the machine waits for: no run goes on for
/// ever.
pub proof fn lemma_step_makes_progress(m: MachineView, event: EventView)
    requires
        m.control matches ControlView::Await(request) ==> fits(request, event),
    ensures
        step(m, event) matches StepView::Continue(after) ==> work(after) < work(m),
        step(m, event) matches StepView::Request(after, _) ==> work(after) < work(m),
{
    let stack = m.stack;
    match m.control {
        ControlView::Eval(e) => {
            lemma_expr_size_positive(e);
            match e {
                ExprView::Assign { index, len, key, value } => {
                    lemma_stack_work_push(stack, FrameView::Assign { key, index, len });
                },
                ExprView::Unary { operator, right, index, len } => {
                    lemma_stack_work_push(stack, FrameView::Unary { operator, index, len });
                },
                ExprView::Ternary { condition, left, right, index, len } => {
                    lemma_stack_work_push(
                        stack,
                        FrameView::Condition { left: *left, right: *right, index, len },
                    );
                },
                ExprView::Binary { left, operator, right, index, len } => {
                    lemma_stack_work_push(
                        stack,
                        FrameView::BinaryLeft { operator, right: *right, index, len },
                    );
                },
                _ => {},
            }
        },
        ControlView::Return(v) => {
            if stack.len() > 0 {
                let rest = stack.drop_last();
                match stack.last() {
                    FrameView::BinaryLeft { operator, right, index, len } => {
                        lemma_stack_work_push(
                            rest,
                            FrameView::BinaryRight { operator, left: v, index, len },
                        );
                    },
                    FrameView::Condition { left, right, index, len } => {
                        lemma_expr_size_positive(left);
                        lemma_expr_size_positive(right);
                    },
                    _ => {},
                }
            }
        },
        ControlView::Next => {
            if stack.len() > 0 {
                let rest = stack.drop_last();
                match stack.last() {
                    FrameView::Rest { stmts, next, block } => {
                        if next < stmts.len() {
                            let later = FrameView::Rest { stmts, next: next + 1, block };
                            let below = rest.push(later);
                            lemma_stack_work_push(rest, later);
                            assert(list_work(stmts, next as int) == stmt_work(stmts[next as int])
                                + list_work(stmts, next + 1 as int));
                            match stmts[next as int] {
                                StmtView::Expression(e) => {
                                    lemma_stack_work_push(below, FrameView::Discard);
                                },
                                StmtView::Print(e) => {
                                    lemma_stack_work_push(below, FrameView::Print);
                                },
                                StmtView::Variable(name, Some(e)) => {
                                    lemma_stack_work_push(below, FrameView::Declare { name });
                                },
                                StmtView::Variable(name, None) => {},
                                StmtView::Block(inner) => {
                                    lemma_stack_work_push(
                                        below,
                                        FrameView::Rest { stmts: inner, next: 0, block: true },
                                    );
                                },
                            }
                        }
                    },
                    _ => {},
                }
            }
        },
        ControlView::Fail(_) => {},
        ControlView::Await(_) => {},
    }
}

/// Steps a machine that waits for nothing until it asks for something or
/// ends the run.
pub open spec fn settled(m: MachineView) -> StepView
    decreases work(m),
    via settled_decreases
{
    match step(m, EventView::Proceed) {
        StepView::Continue(after) => settled(after),
        other => other,
    }
}

#[via_fn]
proof fn settled_decreases(m: MachineView) {
    if !(m.control is Await) {
        lemma_step_makes_progress(m, EventView::Proceed);
    }
}

/// A machine that went on by itself does not wait for anything.
pub proof fn lemma_going_on_waits_for_nothing(m: MachineView, event: EventView)
    ensures
        step(m, event) matches StepView::Continue(after) ==> !(after.control is Await),
{
}

/// Hands `event` to the machine and steps it until it asks for something or
/// ends the run.
pub open spec fn resumed(m: MachineView, event: EventView) -> StepView {
    match step(m, event) {
        StepView::Continue(after) => settled(after),
        other => other,
    }
}

impl LoxResult {
    /// What printing this value asks for.
    pub fn print_request(self) -> (r: Request)
        ensures
            r@ == print_request(self@),
    {
        match self {
            LoxResult::Number(bits) => Request::WriteNumber(bits),
            LoxResult::Str(text) => Request::Print(text),
            LoxResult::Bool(b) => Request::Print(
                String::from_str(
                    if b {
                        "true"
                    } else {
                        "false"
                    },
                ),
            ),
            LoxResult::Nil => Request::Print(String::from_str("Nil")),
        }
    }
}

/// One entry of the machine's stack.
#[allow(inconsistent_fields)]
enum Frame<'a> {
    Unary { operator: UnaryOp, index: usize, len: usize },
    BinaryLeft { operator: BinOp, right: &'a Expr, index: usize, len: usize },
    BinaryRight { operator: BinOp, left: LoxResult, index: usize, len: usize },
    Condition { left: &'a Expr, right: &'a Expr, index: usize, len: usize },
    Assign { key: &'a String, index: usize, len: usize },
    Discard,
    Print,
    Declare { name: &'a String },
    Rest { stmts: &'a Vec<Stmt>, next: usize, block: bool },
}

impl<'a> View for Frame<'a> {
    type V = FrameView;

    closed spec fn view(&self) -> FrameView {
        match self {
            Frame::Unary { operator, index, len } => FrameView::Unary {
                operator: *operator,
                index: *index as nat,
                len: *len as nat,
            },
            Frame::BinaryLeft { operator, right, index, len } => FrameView::BinaryLeft {
                operator: *operator,
                right: right@,
                index: *index as nat,
                len: *len as nat,
            },
            Frame::BinaryRight { operator, left, index, len } => FrameView::BinaryRight {
                operator: *operator,
                left: left@,
                index: *index as nat,
                len: *len as nat,
            },
            Frame::Condition { left, right, index, len } => FrameView::Condition {
                left: left@,
                right: right@,
                index: *index as nat,
                len: *len as nat,
            },
            Frame::Assign { key, index, len } => FrameView::Assign {
                key: key@,
                index: *index as nat,
                len: *len as nat,
            },
            Frame::Discard => FrameView::Discard,
            Frame::Print => FrameView::Print,
            Frame::Declare { name } => FrameView::Declare { name: name@ },
            Frame::Rest { stmts, next, block } => FrameView::Rest {
                stmts: stmt_views(stmts@),
                next: *next as nat,
                block: *block,
            },
        }
    }
}

/// What the machine does next.
enum Control<'a> {
    Eval(&'a Expr),
    Return(LoxResult),
    Next,
    Fail(LoxRuntimeError),
    Await(Request),
}

impl<'a> View for Control<'a> {
    type V = ControlView;

    closed spec fn view(&self) -> ControlView {
        match self {
            Control::Eval(e) => ControlView::Eval(e@),
            Control::Return(v) => ControlView::Return(v@),
            Control::Next => ControlView::Next,
            Control::Fail(error) => ControlView::Fail(error@),
            Control::Await(request) => ControlView::Await(request@),
        }
    }
}

/// The views of the frames of a stack, from the bottom up.
spec fn frame_views<'a>(stack: Seq<Frame<'a>>) -> Seq<FrameView> {
    stack.map_values(|f: Frame<'a>| f@)
}

/// The machine that runs a program: what it does next, what is left to do
/// after that, and the environment that it runs in.
pub struct Interpreter<'a> {
    control: Control<'a>,
    stack: Vec<Frame<'a>>,
    env: Environment,
}

impl<'a> View for Interpreter<'a> {
    type V = MachineView;

    closed spec fn view(&self) -> MachineView {
        MachineView { control: self.control@, stack: frame_views(self.stack@), env: self.env@ }
    }
}

/// What a step of the machine comes to.
pub enum Step<'a> {
    /// The machine went on by itself. It is to be stepped again, with
    /// `Event::Proceed`.
    Continue(Interpreter<'a>),
    /// The machine asks for outside work. It is to be stepped again with
    /// the answer.
    Request(Interpreter<'a>, Request),
    /// The run is over: the environment as the run left it, with every
    /// scope left that the run entered, and how the run ended.
    Finished(Environment, Result<(), LoxRuntimeError>),
}

/// The view of how a run ended.
pub open spec fn ending_view(r: Result<(), LoxRuntimeError>) -> Result<(), RuntimeErrorView> {
    match r {
        Ok(_) => Ok(()),
        Err(error) => Err(error@),
    }
}

impl<'a> View for Step<'a> {
    type V = StepView;

    open spec fn view(&self) -> StepView {
        match self {
            Step::Continue(m) => StepView::Continue(m@),
            Step::Request(m, request) => StepView::Request(m@, request@),
            Step::Finished(env, r) => StepView::Finished(env@, ending_view(*r)),
        }
    }
}

/// The step that goes on with the given control.
fn going_on<'a>(control: Control<'a>, stack: Vec<Frame<'a>>, env: Environment) -> (r: Step<'a>)
    ensures
        r@ == go_on(control@, frame_views(stack@), env@),
{
    Step::Continue(Interpreter { control, stack, env })
}

/// The step that asks for outside work.
fn asking<'a>(request: Request, stack: Vec<Frame<'a>>, env: Environment) -> (r: Step<'a>)
    ensures
        r@ == ask(request@, frame_views(stack@), env@),
{
    let pending = request.clone();
    Step::Request(Interpreter { control: Control::Await(pending), stack, env }, request)
}

/// The step that ends in a runtime error of the node with the given span.
fn failing<'a>(
    message: String,
    index: usize,
    len: usize,
    stack: Vec<Frame<'a>>,
    env: Environment,
) -> (r: Step<'a>)
    ensures
        r@ == go_on(
            ControlView::Fail(error_at(message@, index as nat, len as nat)),
            frame_views(stack@),
            env@,
        ),
{
    going_on(Control::Fail(LoxRuntimeError::new(message, index, len)), stack, env)
}

/// Puts a frame on the stack.
fn pushed<'a>(stack: Vec<Frame<'a>>, frame: Frame<'a>) -> (r: Vec<Frame<'a>>)
    ensures
        frame_views(r@) == frame_views(stack@).push(frame@),
{
    let ghost before = stack@;
    let mut stack = stack;
    stack.push(frame);
    proof {
        assert(frame_views(stack@) =~= frame_views(before).push(frame@));
    }
    stack
}

/// Takes the top frame off the stack, if there is one.
fn popped<'a>(stack: Vec<Frame<'a>>) -> (r: (Vec<Frame<'a>>, Option<Frame<'a>>))
    ensures
        match r.1 {
            Some(frame) => {
                &&& frame_views(stack@).len() > 0
                &&& frame@ == frame_views(stack@).last()
                &&& frame_views(r.0@) == frame_views(stack@).drop_last()
            },
            None => frame_views(stack@).len() == 0 && r.0@ == stack@,
        },
{
    let ghost before = stack@;
    let mut stack = stack;
    let top = stack.pop();
    proof {
        if top is Some {
            assert(frame_views(stack@) =~= frame_views(before).drop_last());
        }
    }
    (stack, top)
}

/// Starts the evaluation of an expression.
fn eval_step<'a>(e: &'a Expr, stack: Vec<Frame<'a>>, env: Environment) -> (r: Step<'a>)
    ensures
        r@ == step_eval(e@, frame_views(stack@), env@),
{
    match e {
        Expr::Literal { value, .. } => match value {
            Literal::Number(text) => asking(Request::ReadNumber(text.clone()), stack, env),
            Literal::Str(text) => going_on(
                Control::Return(LoxResult::Str(text.clone())),
                stack,
                env,
            ),
            Literal::True => going_on(Control::Return(LoxResult::Bool(true)), stack, env),
            Literal::False => going_on(Control::Return(LoxResult::Bool(false)), stack, env),
            Literal::Nil => going_on(Control::Return(LoxResult::Nil), stack, env),
        },
        Expr::Grouping { expr, .. } => going_on(Control::Eval(&**expr), stack, env),
        Expr::Variable { index, len, value } => match env.get(value.as_str()) {
            Some(Some(v)) => going_on(Control::Return(v), stack, env),
            Some(None) => going_on(Control::Return(LoxResult::Nil), stack, env),
            None => failing(
                String::from_str("The variable was not initialized before usage"),
                *index,
                *len,
                stack,
                env,
            ),
        },
        Expr::Assign { index, len, key, value } => match env.get(key.as_str()) {
            None => {
                let mut message = String::from_str("Variable \"");
                message.append(key.as_str());
                message.append("\" was not initialized");
                failing(message, *index, *len, stack, env)
            },
            Some(_) => going_on(
                Control::Eval(&**value),
                pushed(stack, Frame::Assign { key, index: *index, len: *len }),
                env,
            ),
        },
        Expr::Unary { operator, right, index, len } => going_on(
            Control::Eval(&**right),
            pushed(stack, Frame::Unary { operator: *operator, index: *index, len: *len }),
            env,
        ),
        Expr::Ternary { condition, left, right, index, len } => going_on(
            Control::Eval(&**condition),
            pushed(
                stack,
                Frame::Condition { left: &**left, right: &**right, index: *index, len: *len },
            ),
            env,
        ),
        Expr::Binary { left, operator, right, index, len } => going_on(
            Control::Eval(&**left),
            pushed(
                stack,
                Frame::BinaryLeft {
                    operator: *operator,
                    right: &**right,
                    index: *index,
                    len: *len,
                },
            ),
            env,
        ),
    }
}

/// Applies a binary operator to its two operands.
fn apply_step<'a>(
    operator: BinOp,
    l: LoxResult,
    r: LoxResult,
    index: usize,
    len: usize,
    stack: Vec<Frame<'a>>,
    env: Environment,
) -> (s: Step<'a>)
    ensures
        s@ == step_apply(
            operator,
            l@,
            r@,
            index as nat,
            len as nat,
            frame_views(stack@),
            env@,
        ),
{
    match binary_result(operator, l, r) {
        Outcome::Value(v) => going_on(Control::Return(v), stack, env),
        Outcome::Compute(op, a, b) => asking(Request::Compute(op, a, b), stack, env),
        Outcome::Failure(message) => failing(message, index, len, stack, env),
    }
}

/// Hands a value to the top of the stack.
fn return_step<'a>(v: LoxResult, stack: Vec<Frame<'a>>, env: Environment) -> (r: Step<'a>)
    ensures
        r@ == step_return(v@, frame_views(stack@), env@),
{
    let (rest, top) = popped(stack);
    let frame = match top {
        Some(frame) => frame,
        None => {
            return Step::Finished(env, Ok(()));
        },
    };
    match frame {
        Frame::Unary { operator, index, len } => match unary_result(operator, v) {
            Ok(value) => going_on(Control::Return(value), rest, env),
            Err(message) => failing(message, index, len, rest, env),
        },
        Frame::BinaryLeft { operator, right, index, len } => going_on(
            Control::Eval(right),
            pushed(rest, Frame::BinaryRight { operator, left: v, index, len }),
            env,
        ),
        Frame::BinaryRight { operator, left, index, len } => apply_step(
            operator,
            left,
            v,
            index,
            len,
            rest,
            env,
        ),
        Frame::Condition { left, right, index, len } => match v {
            LoxResult::Bool(b) => going_on(
                Control::Eval(
                    if b {
                        left
                    } else {
                        right
                    },
                ),
                rest,
                env,
            ),
            other => {
                let mut message = String::from_str(
                    "The condition of a ternary operator must resolve to a boolean but was ",
                );
                message.append(other.get_type().name());
                failing(message, index, len, rest, env)
            },
        },
        Frame::Assign { key, index, len } => {
            let mut env = env;
            let written = v.clone();
            match env.set(key.as_str(), written) {
                Ok(_) => going_on(Control::Return(v), rest, env),
                Err(_) => {
                    let mut message = String::from_str("Variable \"");
                    message.append(key.as_str());
                    message.append("\" not initialized");
                    failing(message, index, len, rest, env)
                },
            }
        },
        Frame::Discard => going_on(Control::Next, rest, env),
        Frame::Print => asking(v.print_request(), rest, env),
        Frame::Declare { name } => {
            let mut env = env;
            env.declare(name.clone(), Some(v));
            going_on(Control::Next, rest, env)
        },
        Frame::Rest { .. } => Step::Finished(env, Ok(())),
    }
}

/// Starts a statement.
fn statement_step<'a>(s: &'a Stmt, stack: Vec<Frame<'a>>, env: Environment) -> (r: Step<'a>)
    ensures
        r@ == step_statement(s@, frame_views(stack@), env@),
{
    match s {
        Stmt::Expression(e) => going_on(Control::Eval(e), pushed(stack, Frame::Discard), env),
        Stmt::Print(e) => going_on(Control::Eval(e), pushed(stack, Frame::Print), env),
        Stmt::Variable(name, Some(e)) => going_on(
            Control::Eval(e),
            pushed(stack, Frame::Declare { name }),
            env,
        ),
        Stmt::Variable(name, None) => {
            let mut env = env;
            env.declare(name.clone(), None);
            going_on(Control::Next, stack, env)
        },
        Stmt::Block(stmts) => {
            proof {
                assert(s@->Block_0 =~= stmt_views(stmts@));
            }
            going_on(
                Control::Next,
                pushed(stack, Frame::Rest { stmts, next: 0, block: true }),
                Environment::with_parent(env),
            )
        },
    }
}

/// Goes on after a statement is done.
fn next_step<'a>(stack: Vec<Frame<'a>>, env: Environment) -> (r: Step<'a>)
    ensures
        r@ == step_next(frame_views(stack@), env@),
{
    let (rest, top) = popped(stack);
    match top {
        Some(Frame::Rest { stmts, next, block }) => {
            if next < stmts.len() {
                statement_step(
                    &stmts[next],
                    pushed(rest, Frame::Rest { stmts, next: next + 1, block }),
                    env,
                )
            } else if block {
                going_on(Control::Next, rest, env.into_parent())
            } else {
                going_on(Control::Next, rest, env)
            }
        },
        _ => Step::Finished(env, Ok(())),
    }
}

/// Takes the answer to a request.
fn await_step<'a>(request: Request, event: Event, stack: Vec<Frame<'a>>, env: Environment) -> (r:
    Step<'a>)
    ensures
        r@ == step_await(request@, event@, frame_views(stack@), env@),
{
    match (request, event) {
        (Request::ReadNumber(_), Event::Number(bits)) => going_on(
            Control::Return(LoxResult::Number(bits)),
            stack,
            env,
        ),
        (Request::Compute(_, _, _), Event::Number(bits)) => going_on(
            Control::Return(LoxResult::Number(bits)),
            stack,
            env,
        ),
        (Request::WriteNumber(_), Event::Text(text)) => asking(Request::Print(text), stack, env),
        (Request::Print(_), Event::Printed) => going_on(Control::Next, stack, env),
        (request, _) => asking(request, stack, env),
    }
}

/// Leaves every block that the stack is inside of.
fn unwind<'a>(stack: Vec<Frame<'a>>, env: Environment) -> (r: Environment)
    ensures
        r@ == unwound(frame_views(stack@), env@),
{
    let ghost whole = frame_views(stack@);
    let ghost first = env@;
    let mut frames = stack;
    let mut scopes = env;
    loop
        invariant
            unwound(frame_views(frames@), scopes@) == unwound(whole, first),
        ensures
            scopes@ == unwound(whole, first),
        decreases frames.len(),
    {
        let ghost before = frames@;
        match frames.pop() {
            None => {
                proof {
                    assert(frame_views(frames@).len() == 0);
                }
                break ;
            },
            Some(frame) => {
                proof {
                    assert(frame_views(frames@) =~= frame_views(before).drop_last());
                    assert(frame@ == frame_views(before).last());
                }
                match frame {
                    Frame::Rest { block: true, .. } => {
                        scopes = scopes.into_parent();
                    },
                    _ => {},
                }
            },
        }
    }
    scopes
}

impl<'a> Interpreter<'a> {
    /// The machine that is about to run `stmts` in `env`.
    pub fn new(stmts: &'a Vec<Stmt>, env: Environment) -> (m: Interpreter<'a>)
        ensures
            m@ == start(stmt_views(stmts@), env@),
    {
        let stack = pushed(Vec::new(), Frame::Rest { stmts, next: 0, block: false });
        let m = Interpreter { control: Control::Next, stack, env };
        proof {
            assert(frame_views(Seq::<Frame<'a>>::empty()) =~= Seq::<FrameView>::empty());
            assert(m@.stack =~= start(stmt_views(stmts@), env@).stack);
        }
        m
    }

    /// The request that the machine waits for an answer to, if it waits.
    pub fn pending(&self) -> (r: Option<&Request>)
        ensures
            match r {
                Some(request) => self@.control == ControlView::Await(request@),
                None => !(self@.control is Await),
            },
    {
        match &self.control {
            Control::Await(request) => Some(request),
            _ => None,
        }
    }

    /// Hands `event` to the machine and lets it run until it asks for
    /// outside work or the run is over.
    pub fn resume(self, event: Event) -> (r: Step<'a>)
        ensures
            r@ == resumed(self@, event@),
            !(r is Continue),
    {
        let mut current = self.step(event);
        proof {
            lemma_going_on_waits_for_nothing(self@, event@);
        }
        loop
            invariant
                resumed(self@, event@) == match current@ {
                    StepView::Continue(after) => settled(after),
                    other => other,
                },
                current@ matches StepView::Continue(after) ==> !(after.control is Await),
            decreases match current@ {
                    StepView::Continue(after) => work(after) + 1,
                    _ => 0,
                },
        {
            current = match current {
                Step::Continue(m) => {
                    proof {
                        lemma_step_makes_progress(m@, EventView::Proceed);
                        lemma_going_on_waits_for_nothing(m@, EventView::Proceed);
                    }
                    m.step(Event::Proceed)
                },
                other => {
                    return other;
                },
            };
        }
    }

    /// Takes one step. A machine that waits for an answer takes it from
    /// `event`; any other machine goes on whatever `event` is.
    pub fn step(self, event: Event) -> (r: Step<'a>)
        ensures
            r@ == step(self@, event@),
    {
        let Interpreter { control, stack, env } = self;
        match control {
            Control::Eval(e) => eval_step(e, stack, env),
            Control::Return(v) => return_step(v, stack, env),
            Control::Next => next_step(stack, env),
            Control::Fail(error) => Step::Finished(unwind(stack, env), Err(error)),
            Control::Await(request) => await_step(request, event, stack, env),
        }
    }
}

} // verus!
