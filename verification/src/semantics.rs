//! What a program means: the value of an expression and the effect of a
//! statement, as functions of the syntax tree and the chain of scopes.
//!
//! Arithmetic on doubles, reading a numeral and writing a number are left
//! to whoever runs the program. Their answers appear here as three
//! functions, `Arithmetic`, and everything is stated for whatever those
//! functions are.

use vstd::prelude::*;
use vstd::string::StringExecFns;

use crate::ast::{BinOp, ExprView, LiteralView, StmtView, UnaryOp};
use crate::interpreter::{
    assigned, declared, entered, left, lemma_assigned_keeps_names,
    lemma_declared_keeps_outer_names, lookup, negate_number, negated, same_names,
    same_outer_names, type_label, type_of, value_equal, value_less, LoxResult, LoxType,
    RuntimeErrorView, Scope, Value,
};

verus! {

/// The answers of the numeric service: the double that a numeral reads as,
/// the result of an arithmetic operator on two doubles, and the text that a
/// double is written as.
pub struct Arithmetic {
    pub read: spec_fn(Seq<char>) -> u64,
    pub compute: spec_fn(BinOp, u64, u64) -> u64,
    pub write: spec_fn(u64) -> Seq<char>,
}

/// The name of a binary operator, as messages write it.
pub open spec fn op_label(op: BinOp) -> Seq<char> {
    match op {
        BinOp::Sum => "Sum"@,
        BinOp::Substraction => "Substraction"@,
        BinOp::Product => "Product"@,
        BinOp::Division => "Division"@,
        BinOp::Equals => "Equals"@,
        BinOp::NotEquals => "NotEquals"@,
        BinOp::GreaterThan => "GreaterThan"@,
        BinOp::GreaterThanEquals => "GreaterThanEquals"@,
        BinOp::LessThan => "LessThan"@,
        BinOp::LessThanEquals => "LessThanEquals"@,
        BinOp::Comma => "Comma"@,
    }
}

/// The message for reading a variable that no scope declares.
pub open spec fn unknown_variable_message() -> Seq<char> {
    "The variable was not initialized before usage"@
}

/// The message for assigning to a variable that no scope declares.
pub open spec fn unknown_target_message(key: Seq<char>) -> Seq<char> {
    "Variable \""@ + key + "\" was not initialized"@
}

/// The message for an assignment whose target is gone when the value is
/// to be written.
pub open spec fn lost_target_message(key: Seq<char>) -> Seq<char> {
    "Variable \""@ + key + "\" not initialized"@
}

/// The message for a unary operator on a value of the wrong type.
pub open spec fn negate_message(t: LoxType) -> Seq<char> {
    "Cant negate type "@ + type_label(t)
}

/// The message for a condition that is no boolean.
pub open spec fn condition_message(t: LoxType) -> Seq<char> {
    "The condition of a ternary operator must resolve to a boolean but was "@ + type_label(t)
}

/// The message for a binary operator on operands of two different types.
pub open spec fn mismatch_message(l: LoxType, r: LoxType) -> Seq<char> {
    "Cant operate on "@ + type_label(l) + " and "@ + type_label(r)
}

/// The message for an arithmetic operator on operands of a type that it is
/// not defined for.
pub open spec fn unsupported_message(op: BinOp, t: LoxType) -> Seq<char> {
    "Can't perform "@ + op_label(op) + " on "@ + type_label(t)
}

/// The value that a literal stands for.
pub open spec fn literal_value(literal: LiteralView, n: Arithmetic) -> Value {
    match literal {
        LiteralView::Number(text) => Value::Number((n.read)(text)),
        LiteralView::Str(text) => Value::Str(text),
        LiteralView::True => Value::Bool(true),
        LiteralView::False => Value::Bool(false),
        LiteralView::Nil => Value::Nil,
    }
}

/// A unary operator applied to a value: `!` takes a boolean, `-` a number.
/// On any other operand it fails, with a message that names the operand's
/// type.
pub open spec fn apply_unary(op: UnaryOp, v: Value) -> Result<Value, Seq<char>> {
    match (op, v) {
        (UnaryOp::LogicNegate, Value::Bool(b)) => Ok(Value::Bool(!b)),
        (UnaryOp::Negate, Value::Number(bits)) => Ok(Value::Number(negated(bits))),
        _ => Err(negate_message(type_of(v))),
    }
}

/// What a binary operator comes to on two values: a value, an arithmetic
/// operation on two doubles that is still to be carried out, or a failure
/// with its message.
pub enum Applied {
    Value(Value),
    Compute(BinOp, u64, u64),
    Failure(Seq<char>),
}

/// A binary operator applied to two values. The comma yields its right
/// operand, whatever the types. Every other operator fails on operands of
/// two different types. `+` adds numbers and joins texts; `-`, `*` and `/`
/// take numbers; `==` and `!=` compare for equality; `<`, `<=`, `>` and
/// `>=` compare by order.
pub open spec fn apply_binary(op: BinOp, l: Value, r: Value) -> Applied {
    if op == BinOp::Comma {
        Applied::Value(r)
    } else if type_of(l) != type_of(r) {
        Applied::Failure(mismatch_message(type_of(l), type_of(r)))
    } else {
        match op {
            BinOp::Sum => match (l, r) {
                (Value::Number(a), Value::Number(b)) => Applied::Compute(op, a, b),
                (Value::Str(a), Value::Str(b)) => Applied::Value(Value::Str(a + b)),
                _ => Applied::Failure(unsupported_message(op, type_of(l))),
            },
            BinOp::Substraction | BinOp::Product | BinOp::Division => match (l, r) {
                (Value::Number(a), Value::Number(b)) => Applied::Compute(op, a, b),
                _ => Applied::Failure(unsupported_message(op, type_of(l))),
            },
            BinOp::Equals => Applied::Value(Value::Bool(value_equal(l, r))),
            BinOp::NotEquals => Applied::Value(Value::Bool(!value_equal(l, r))),
            BinOp::GreaterThan => Applied::Value(Value::Bool(value_less(r, l))),
            BinOp::GreaterThanEquals => Applied::Value(
                Value::Bool(value_less(r, l) || value_equal(l, r)),
            ),
            BinOp::LessThan => Applied::Value(Value::Bool(value_less(l, r))),
            BinOp::LessThanEquals => Applied::Value(
                Value::Bool(value_less(l, r) || value_equal(l, r)),
            ),
            BinOp::Comma => Applied::Value(r),
        }
    }
}

impl BinOp {
    /// The name of the operator, as messages write it.
    pub fn name(&self) -> (r: &'static str)
        ensures
            r@ == op_label(*self),
    {
        match self {
            BinOp::Sum => "Sum",
            BinOp::Substraction => "Substraction",
            BinOp::Product => "Product",
            BinOp::Division => "Division",
            BinOp::Equals => "Equals",
            BinOp::NotEquals => "NotEquals",
            BinOp::GreaterThan => "GreaterThan",
            BinOp::GreaterThanEquals => "GreaterThanEquals",
            BinOp::LessThan => "LessThan",
            BinOp::LessThanEquals => "LessThanEquals",
            BinOp::Comma => "Comma",
        }
    }
}

/// The view of the result of a unary operator.
pub open spec fn unary_view(r: Result<LoxResult, String>) -> Result<Value, Seq<char>> {
    match r {
        Ok(v) => Ok(v@),
        Err(message) => Err(message@),
    }
}

/// Applies a unary operator to a value.
pub fn unary_result(operator: UnaryOp, v: LoxResult) -> (r: Result<LoxResult, String>)
    ensures
        unary_view(r) == apply_unary(operator, v@),
{
    match (operator, v) {
        (UnaryOp::LogicNegate, LoxResult::Bool(b)) => Ok(LoxResult::Bool(!b)),
        (UnaryOp::Negate, LoxResult::Number(bits)) => Ok(
            LoxResult::Number(negate_number(bits)),
        ),
        (_, other) => {
            let mut message = String::from_str("Cant negate type ");
            message.append(other.get_type().name());
            Err(message)
        },
    }
}

/// What a binary operator comes to on two values.
#[derive(Debug, PartialEq)]
pub enum Outcome {
    /// The value of the operation.
    Value(LoxResult),
    /// The arithmetic that gives the value, still to be done.
    Compute(BinOp, u64, u64),
    /// The message of the runtime error.
    Failure(String),
}

impl View for Outcome {
    type V = Applied;

    open spec fn view(&self) -> Applied {
        match self {
            Outcome::Value(v) => Applied::Value(v@),
            Outcome::Compute(op, a, b) => Applied::Compute(*op, *a, *b),
            Outcome::Failure(message) => Applied::Failure(message@),
        }
    }
}

/// The failure of an arithmetic operator on operands of a type that it is
/// not defined for.
fn unsupported(operator: BinOp, t: LoxType) -> (r: Outcome)
    ensures
        r@ == Applied::Failure(unsupported_message(operator, t)),
{
    let mut message = String::from_str("Can't perform ");
    message.append(operator.name());
    message.append(" on ");
    message.append(t.name());
    Outcome::Failure(message)
}

/// Applies a binary operator to two values.
pub fn binary_result(operator: BinOp, l: LoxResult, r: LoxResult) -> (a: Outcome)
    ensures
        a@ == apply_binary(operator, l@, r@),
{
    if operator == BinOp::Comma {
        return Outcome::Value(r);
    }
    let lt = l.get_type();
    let rt = r.get_type();
    if lt != rt {
        let mut message = String::from_str("Cant operate on ");
        message.append(lt.name());
        message.append(" and ");
        message.append(rt.name());
        return Outcome::Failure(message);
    }
    match operator {
        BinOp::Sum => match (l, r) {
            (LoxResult::Number(a), LoxResult::Number(b)) => Outcome::Compute(operator, a, b),
            (LoxResult::Str(a), LoxResult::Str(b)) => Outcome::Value(
                LoxResult::Str(a.concat(b.as_str())),
            ),
            _ => unsupported(operator, lt),
        },
        BinOp::Substraction | BinOp::Product | BinOp::Division => match (l, r) {
            (LoxResult::Number(a), LoxResult::Number(b)) => Outcome::Compute(operator, a, b),
            _ => unsupported(operator, lt),
        },
        BinOp::Equals => Outcome::Value(LoxResult::Bool(l.equals(&r))),
        BinOp::NotEquals => Outcome::Value(LoxResult::Bool(!l.equals(&r))),
        BinOp::GreaterThan => Outcome::Value(LoxResult::Bool(r.less_than(&l))),
        BinOp::GreaterThanEquals => Outcome::Value(
            LoxResult::Bool(r.less_than(&l) || l.equals(&r)),
        ),
        BinOp::LessThan => Outcome::Value(LoxResult::Bool(l.less_than(&r))),
        BinOp::LessThanEquals => Outcome::Value(LoxResult::Bool(l.less_than(&r) || l.equals(&r))),
        BinOp::Comma => Outcome::Value(r),
    }
}

/// The text that a value is printed as.
pub open spec fn display(v: Value, n: Arithmetic) -> Seq<char> {
    match v {
        Value::Number(bits) => (n.write)(bits),
        Value::Str(text) => text,
        Value::Bool(b) => if b {
            "true"@
        } else {
            "false"@
        },
        Value::Nil => "Nil"@,
    }
}

/// What evaluating an expression gives: its value or the first runtime
/// error, and the chain of scopes as the evaluation left it.
pub struct Evaluated {
    pub result: Result<Value, RuntimeErrorView>,
    pub env: Seq<Scope>,
}

/// An evaluation that gave a value.
pub open spec fn gave(value: Value, env: Seq<Scope>) -> Evaluated {
    Evaluated { result: Ok(value), env }
}

/// An evaluation that failed at the node with the given span.
pub open spec fn failed_at(message: Seq<char>, index: nat, len: nat, env: Seq<Scope>) -> Evaluated {
    Evaluated { result: Err(RuntimeErrorView { message, index, len }), env }
}

/// The value of an expression in a chain of scopes.
///
/// Operands are evaluated from left to right, and both operands of a
/// binary operator always are. Of the two branches of a conditional, only
/// the one that the condition selects is evaluated. An assignment first
/// checks that its target is declared, then evaluates its right-hand side,
/// then writes; its value is the value written. A variable that was
/// declared without a value reads as nil. Every error carries the span of
/// the node that found it.
pub open spec fn eval(e: ExprView, env: Seq<Scope>, n: Arithmetic) -> Evaluated
    decreases e,
{
    match e {
        ExprView::Literal { value, .. } => gave(literal_value(value, n), env),
        ExprView::Grouping { expr, .. } => eval(*expr, env, n),
        ExprView::Variable { index, len, value } => match lookup(env, value) {
            Some(Some(v)) => gave(v, env),
            Some(None) => gave(Value::Nil, env),
            None => failed_at(unknown_variable_message(), index, len, env),
        },
        ExprView::Assign { index, len, key, value } => if lookup(env, key) is None {
            failed_at(unknown_target_message(key), index, len, env)
        } else {
            let right = eval(*value, env, n);
            match right.result {
                Err(_) => right,
                Ok(v) => match assigned(right.env, key, v) {
                    Some(written) => gave(v, written),
                    None => failed_at(lost_target_message(key), index, len, right.env),
                },
            }
        },
        ExprView::Unary { operator, right, index, len } => {
            let operand = eval(*right, env, n);
            match operand.result {
                Err(_) => operand,
                Ok(v) => match apply_unary(operator, v) {
                    Ok(value) => gave(value, operand.env),
                    Err(message) => failed_at(message, index, len, operand.env),
                },
            }
        },
        ExprView::Ternary { condition, left, right, index, len } => {
            let chosen = eval(*condition, env, n);
            match chosen.result {
                Err(_) => chosen,
                Ok(Value::Bool(b)) => if b {
                    eval(*left, chosen.env, n)
                } else {
                    eval(*right, chosen.env, n)
                },
                Ok(v) => failed_at(condition_message(type_of(v)), index, len, chosen.env),
            }
        },
        ExprView::Binary { left, operator, right, index, len } => {
            let first = eval(*left, env, n);
            match first.result {
                Err(_) => first,
                Ok(l) => {
                    let second = eval(*right, first.env, n);
                    match second.result {
                        Err(_) => second,
                        Ok(r) => match apply_binary(operator, l, r) {
                            Applied::Value(value) => gave(value, second.env),
                            Applied::Compute(op, a, b) => gave(
                                Value::Number((n.compute)(op, a, b)),
                                second.env,
                            ),
                            Applied::Failure(message) => failed_at(
                                message,
                                index,
                                len,
                                second.env,
                            ),
                        },
                    }
                },
            }
        },
    }
}

/// An assignment to a name that no scope declares fails, and leaves every
/// scope as it was: nothing is written, and the right-hand side is not
/// evaluated.
pub proof fn lemma_assignment_needs_declaration(
    index: nat,
    len: nat,
    key: Seq<char>,
    value: ExprView,
    env: Seq<Scope>,
    n: Arithmetic,
)
    requires
        lookup(env, key) is None,
    ensures
        eval(ExprView::Assign { index, len, key, value: Box::new(value) }, env, n) == failed_at(
            unknown_target_message(key),
            index,
            len,
            env,
        ),
{
}

/// A binary operator other than the comma fails on operands of two
/// different types, equality and inequality included.
pub proof fn lemma_mismatch_fails(operator: BinOp, l: Value, r: Value)
    requires
        operator != BinOp::Comma,
        type_of(l) != type_of(r),
    ensures
        apply_binary(operator, l, r) == Applied::Failure(
            mismatch_message(type_of(l), type_of(r)),
        ),
{
}

/// A binary expression whose operands come to values of two different
/// types is a runtime error at the span of the expression, unless its
/// operator is the comma.
pub proof fn lemma_mismatched_operands_fail(
    left: ExprView,
    operator: BinOp,
    right: ExprView,
    index: nat,
    len: nat,
    env: Seq<Scope>,
    n: Arithmetic,
)
    requires
        operator != BinOp::Comma,
        eval(left, env, n).result is Ok,
        eval(right, eval(left, env, n).env, n).result is Ok,
        type_of(eval(left, env, n).result->Ok_0) != type_of(
            eval(right, eval(left, env, n).env, n).result->Ok_0,
        ),
    ensures
        eval(
            ExprView::Binary {
                left: Box::new(left),
                operator,
                right: Box::new(right),
                index,
                len,
            },
            env,
            n,
        ).result == Err::<Value, RuntimeErrorView>(
            RuntimeErrorView {
                message: mismatch_message(
                    type_of(eval(left, env, n).result->Ok_0),
                    type_of(eval(right, eval(left, env, n).env, n).result->Ok_0),
                ),
                index,
                len,
            },
        ),
{
}

/// The comma evaluates both operands and yields the right one, whatever
/// the types.
pub proof fn lemma_comma_yields_right(l: Value, r: Value)
    ensures
        apply_binary(BinOp::Comma, l, r) == Applied::Value(r),
{
}

/// What running statements gives: success or the first runtime error, the
/// chain of scopes as the run left it, and the lines printed, in order.
pub struct Executed {
    pub result: Result<(), RuntimeErrorView>,
    pub env: Seq<Scope>,
    pub output: Seq<Seq<char>>,
}

/// The run `first` followed by the run `then`, which started from where
/// `first` ended.
pub open spec fn followed_by(output: Seq<Seq<char>>, then: Executed) -> Executed {
    Executed { result: then.result, env: then.env, output: output + then.output }
}

/// The effect of one statement.
///
/// An expression statement evaluates its expression and drops the value. A
/// print statement evaluates its expression and prints the value as one
/// line. A declaration evaluates its initializer, if it has one, and
/// declares the name in the innermost scope. A block runs its statements in
/// a new innermost scope, which it leaves when the statements are done or
/// when one of them fails.
pub open spec fn exec(s: StmtView, env: Seq<Scope>, n: Arithmetic) -> Executed
    decreases s, 0nat,
{
    match s {
        StmtView::Expression(e) => {
            let value = eval(e, env, n);
            match value.result {
                Ok(_) => Executed { result: Ok(()), env: value.env, output: Seq::empty() },
                Err(error) => Executed {
                    result: Err(error),
                    env: value.env,
                    output: Seq::empty(),
                },
            }
        },
        StmtView::Print(e) => {
            let value = eval(e, env, n);
            match value.result {
                Ok(v) => Executed { result: Ok(()), env: value.env, output: seq![display(v, n)] },
                Err(error) => Executed {
                    result: Err(error),
                    env: value.env,
                    output: Seq::empty(),
                },
            }
        },
        StmtView::Variable(name, None) => Executed {
            result: Ok(()),
            env: declared(env, name, None),
            output: Seq::empty(),
        },
        StmtView::Variable(name, Some(e)) => {
            let value = eval(e, env, n);
            match value.result {
                Ok(v) => Executed {
                    result: Ok(()),
                    env: declared(value.env, name, Some(v)),
                    output: Seq::empty(),
                },
                Err(error) => Executed {
                    result: Err(error),
                    env: value.env,
                    output: Seq::empty(),
                },
            }
        },
        StmtView::Block(stmts) => {
            let inner = exec_from(stmts, 0, entered(env), n);
            Executed { result: inner.result, env: left(inner.env), output: inner.output }
        },
    }
}

/// The effect of the statements `stmts[from..]`, one after the other. The
/// first error ends the run: the statements after it are not run, and what
/// was printed before it stays printed.
pub open spec fn exec_from(stmts: Seq<StmtView>, from: int, env: Seq<Scope>, n: Arithmetic) -> Executed
    decreases stmts, stmts.len() - from,
{
    if 0 <= from < stmts.len() {
        let first = exec(stmts[from], env, n);
        match first.result {
            Err(_) => first,
            Ok(_) => followed_by(first.output, exec_from(stmts, from + 1, first.env, n)),
        }
    } else {
        Executed { result: Ok(()), env, output: Seq::empty() }
    }
}

/// The effect of a program: its statements, one after the other.
pub open spec fn run(stmts: Seq<StmtView>, env: Seq<Scope>, n: Arithmetic) -> Executed {
    exec_from(stmts, 0, env, n)
}

/// A statement that assigns to a name that no scope declares fails, prints
/// nothing, and leaves every scope as it was.
pub proof fn lemma_assignment_statement_needs_declaration(
    index: nat,
    len: nat,
    key: Seq<char>,
    value: ExprView,
    env: Seq<Scope>,
    n: Arithmetic,
)
    requires
        lookup(env, key) is None,
    ensures
        exec(
            StmtView::Expression(ExprView::Assign { index, len, key, value: Box::new(value) }),
            env,
            n,
        ) == (Executed {
            result: Err(RuntimeErrorView { message: unknown_target_message(key), index, len }),
            env,
            output: Seq::empty(),
        }),
{
}

/// The program `var x = a; { var x = b; print x; } print x;`, for any name
/// `x` and any literals `a` and `b`.
pub open spec fn shadowing_program(
    name: Seq<char>,
    outer: LiteralView,
    inner: LiteralView,
) -> Seq<StmtView> {
    let read = ExprView::Variable { index: 0, len: 0, value: name };
    seq![
        StmtView::Variable(name, Some(ExprView::Literal { value: outer, index: 0, len: 0 })),
        StmtView::Block(
            seq![
                StmtView::Variable(
                    name,
                    Some(ExprView::Literal { value: inner, index: 0, len: 0 }),
                ),
                StmtView::Print(read),
            ],
        ),
        StmtView::Print(read),
    ]
}

/// A name that a block declares shadows the same name outside: read in the
/// block it has the block's value, and read after the block it has the
/// value from before the block.
pub proof fn lemma_shadowing(
    name: Seq<char>,
    outer: LiteralView,
    inner: LiteralView,
    env: Seq<Scope>,
    n: Arithmetic,
)
    requires
        env.len() >= 1,
    ensures
        run(shadowing_program(name, outer, inner), env, n) == (Executed {
            result: Ok(()),
            env: declared(env, name, Some(literal_value(outer, n))),
            output: seq![
                display(literal_value(inner, n), n),
                display(literal_value(outer, n), n),
            ],
        }),
{
    let program = shadowing_program(name, outer, inner);
    let block = program[1]->Block_0;
    let a = literal_value(outer, n);
    let b = literal_value(inner, n);
    let read = ExprView::Variable { index: 0, len: 0, value: name };
    let nothing = Seq::<Seq<char>>::empty();
    // The outer declaration.
    let env1 = declared(env, name, Some(a));
    assert(exec(program[0], env, n) == Executed { result: Ok(()), env: env1, output: nothing });
    assert(env1[0].contains_key(name));
    assert(lookup(env1, name) == Some(Some(a)));
    // Inside the block.
    let env2 = entered(env1);
    let env3 = declared(env2, name, Some(b));
    assert(exec(block[0], env2, n) == Executed { result: Ok(()), env: env3, output: nothing });
    assert(env3[0].contains_key(name));
    assert(lookup(env3, name) == Some(Some(b)));
    assert(eval(read, env3, n) == gave(b, env3));
    assert(exec(block[1], env3, n) == Executed {
        result: Ok(()),
        env: env3,
        output: seq![display(b, n)],
    });
    let end_of_block = exec_from(block, 2, env3, n);
    assert(end_of_block == Executed { result: Ok(()), env: env3, output: nothing });
    let rest_of_block = exec_from(block, 1, env3, n);
    assert(rest_of_block.output =~= seq![display(b, n)]);
    assert(rest_of_block == Executed {
        result: Ok(()),
        env: env3,
        output: seq![display(b, n)],
    });
    let whole_block = exec_from(block, 0, env2, n);
    assert(whole_block.output =~= seq![display(b, n)]);
    assert(whole_block == rest_of_block);
    assert(env3.drop_first() =~= env1);
    assert(left(env3) == env1);
    assert(exec(program[1], env1, n) == Executed {
        result: Ok(()),
        env: env1,
        output: seq![display(b, n)],
    });
    // After the block.
    assert(eval(read, env1, n) == gave(a, env1));
    assert(exec(program[2], env1, n) == Executed {
        result: Ok(()),
        env: env1,
        output: seq![display(a, n)],
    });
    let end = exec_from(program, 3, env1, n);
    assert(end == Executed { result: Ok(()), env: env1, output: nothing });
    let last = exec_from(program, 2, env1, n);
    assert(last.output =~= seq![display(a, n)]);
    let from_block = exec_from(program, 1, env1, n);
    assert(from_block.output =~= seq![display(b, n), display(a, n)]);
    let all = exec_from(program, 0, env, n);
    assert(all.output =~= seq![display(b, n), display(a, n)]);
}

/// Evaluating an expression declares nothing and enters or leaves no
/// scope: it changes at most what names are bound to.
pub proof fn lemma_eval_keeps_names(e: ExprView, env: Seq<Scope>, n: Arithmetic)
    ensures
        same_names(eval(e, env, n).env, env),
    decreases e,
{
    match e {
        ExprView::Literal { .. } => {},
        ExprView::Variable { .. } => {},
        ExprView::Grouping { expr, .. } => {
            lemma_eval_keeps_names(*expr, env, n);
        },
        ExprView::Assign { key, value, .. } => {
            if lookup(env, key) is Some {
                lemma_eval_keeps_names(*value, env, n);
                let right = eval(*value, env, n);
                if right.result is Ok {
                    lemma_assigned_keeps_names(right.env, key, right.result->Ok_0);
                }
            }
        },
        ExprView::Unary { right, .. } => {
            lemma_eval_keeps_names(*right, env, n);
        },
        ExprView::Ternary { condition, left, right, .. } => {
            lemma_eval_keeps_names(*condition, env, n);
            let chosen = eval(*condition, env, n);
            lemma_eval_keeps_names(*left, chosen.env, n);
            lemma_eval_keeps_names(*right, chosen.env, n);
        },
        ExprView::Binary { left, right, .. } => {
            lemma_eval_keeps_names(*left, env, n);
            let first = eval(*left, env, n);
            lemma_eval_keeps_names(*right, first.env, n);
        },
    }
}

/// A statement enters and leaves its scopes in pairs, and declares names
/// in the innermost scope only: after it, whether it failed or not, the
/// chain has the scopes that it had, and every scope but the innermost has
/// the names that it had.
pub proof fn lemma_exec_keeps_outer_names(s: StmtView, env: Seq<Scope>, n: Arithmetic)
    requires
        env.len() >= 1,
    ensures
        same_outer_names(exec(s, env, n).env, env),
    decreases s, 0nat,
{
    match s {
        StmtView::Expression(e) => {
            lemma_eval_keeps_names(e, env, n);
        },
        StmtView::Print(e) => {
            lemma_eval_keeps_names(e, env, n);
        },
        StmtView::Variable(name, None) => {
            lemma_declared_keeps_outer_names(env, name, None);
        },
        StmtView::Variable(name, Some(e)) => {
            lemma_eval_keeps_names(e, env, n);
            let value = eval(e, env, n);
            if value.result is Ok {
                lemma_declared_keeps_outer_names(value.env, name, Some(value.result->Ok_0));
            }
        },
        StmtView::Block(stmts) => {
            lemma_block_leaks_nothing(stmts, env, n);
        },
    }
}

/// The statements `stmts[from..]`, run one after the other, keep the scopes
/// and the names of every scope but the innermost.
pub proof fn lemma_exec_from_keeps_outer_names(
    stmts: Seq<StmtView>,
    from: int,
    env: Seq<Scope>,
    n: Arithmetic,
)
    requires
        env.len() >= 1,
    ensures
        same_outer_names(exec_from(stmts, from, env, n).env, env),
    decreases stmts, stmts.len() - from,
{
    if 0 <= from < stmts.len() {
        lemma_exec_keeps_outer_names(stmts[from], env, n);
        let first = exec(stmts[from], env, n);
        if first.result is Ok {
            lemma_exec_from_keeps_outer_names(stmts, from + 1, first.env, n);
        }
    }
}

/// No binding leaks out of a block: after a block, whether it failed or
/// not, every scope has the names that it had before the block. What the
/// block declared is gone with the block's scope.
pub proof fn lemma_block_leaks_nothing(stmts: Seq<StmtView>, env: Seq<Scope>, n: Arithmetic)
    requires
        env.len() >= 1,
    ensures
        same_names(exec(StmtView::Block(stmts), env, n).env, env),
    decreases stmts, stmts.len() + 1,
{
    let inside = entered(env);
    lemma_exec_from_keeps_outer_names(stmts, 0, inside, n);
    let inner = exec_from(stmts, 0, inside, n);
    let after = left(inner.env);
    assert forall|i: int| 0 <= i < after.len() implies (#[trigger] after[i]).dom()
        == env[i].dom() by {
        assert(after[i] == inner.env[i + 1]);
        assert(inside[i + 1] == env[i]);
    }
}

} // verus!
