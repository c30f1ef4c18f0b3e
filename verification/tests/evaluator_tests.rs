use lox::ast::{BinOp, Stmt};
use lox::interpreter::{Environment, LoxResult, LoxRuntimeError};
use lox::machine::{Event, Interpreter, Request, Step};
use lox::parser::scan_and_parse;

fn compute(op: BinOp, a: u64, b: u64) -> u64 {
    let (a, b) = (f64::from_bits(a), f64::from_bits(b));
    let r = match op {
        BinOp::Sum => a + b,
        BinOp::Substraction => a - b,
        BinOp::Product => a * b,
        BinOp::Division => a / b,
        other => panic!("{:?} is no arithmetic", other),
    };
    r.to_bits()
}

fn drive(
    stmts: &Vec<Stmt>,
    env: Environment,
) -> (Environment, Result<(), LoxRuntimeError>, Vec<String>) {
    let mut out = Vec::new();
    let mut step = Interpreter::new(stmts, env).step(Event::Proceed);
    loop {
        step = match step {
            Step::Continue(m) => m.step(Event::Proceed),
            Step::Request(m, Request::ReadNumber(text)) => {
                m.step(Event::Number(text.parse::<f64>().unwrap().to_bits()))
            }
            Step::Request(m, Request::Compute(op, a, b)) => {
                m.step(Event::Number(compute(op, a, b)))
            }
            Step::Request(m, Request::WriteNumber(bits)) => {
                m.step(Event::Text(format!("{}", f64::from_bits(bits))))
            }
            Step::Request(m, Request::Print(line)) => {
                out.push(line);
                m.step(Event::Printed)
            }
            Step::Finished(env, r) => return (env, r, out),
        };
    }
}

fn run(code: &str) -> (Environment, Result<(), LoxRuntimeError>, Vec<String>) {
    let stmts = scan_and_parse(code).unwrap();
    drive(&stmts, Environment::new())
}

/// The value that `expr` comes to, read back from a variable.
fn value_of(expr: &str) -> LoxResult {
    let (env, r, _) = run(&format!("var result = {};", expr));
    r.unwrap();
    env.get("result").unwrap().unwrap()
}

fn error_of(code: &str) -> LoxRuntimeError {
    let (_, r, _) = run(code);
    r.unwrap_err()
}

fn number(x: f64) -> LoxResult {
    LoxResult::Number(x.to_bits())
}

fn text(s: &str) -> LoxResult {
    LoxResult::Str(s.to_string())
}

#[test]
fn literals_evaluate_to_what_they_spell() {
    assert_eq!(value_of("3.5"), number(3.5));
    assert_eq!(value_of("42"), number(42.0));
    assert_eq!(value_of("\"hello\""), text("hello"));
    assert_eq!(value_of("\"\""), text(""));
    assert_eq!(value_of("true"), LoxResult::Bool(true));
    assert_eq!(value_of("false"), LoxResult::Bool(false));
    assert_eq!(value_of("nil"), LoxResult::Nil);
}

#[test]
fn product_binds_tighter_than_sum() {
    assert_eq!(value_of("1 + 2 * 3"), number(7.0));
    assert_eq!(value_of("(1 + 2) * 3"), number(9.0));
    assert_eq!(value_of("8 - 4 - 2"), number(2.0));
    assert_eq!(value_of("8 / 4 / 2"), number(1.0));
}

#[test]
fn sum_binds_tighter_than_equality() {
    assert_eq!(value_of("2 + 3 == 5"), LoxResult::Bool(true));
    assert_eq!(value_of("2 + 3 != 5"), LoxResult::Bool(false));
    assert_eq!(value_of("1 + 1 < 3"), LoxResult::Bool(true));
}

#[test]
fn ternary_associates_to_the_right() {
    assert_eq!(value_of("true ? 1 : 2 ? 3 : 4"), number(1.0));
    assert_eq!(value_of("false ? 1 : true ? 3 : 4"), number(3.0));
    assert_eq!(value_of("false ? 1 : false ? 3 : 4"), number(4.0));
}

#[test]
fn untaken_branch_is_not_evaluated() {
    assert_eq!(value_of("true ? 1 : -\"x\""), number(1.0));
    assert_eq!(value_of("false ? -\"x\" : 2"), number(2.0));
}

#[test]
fn comma_yields_its_right_operand() {
    assert_eq!(value_of("(1, 2, 3)"), number(3.0));
    assert_eq!(value_of("(1, \"two\")"), text("two"));
    assert_eq!(value_of("(nil, true)"), LoxResult::Bool(true));
}

#[test]
fn comma_evaluates_both_operands() {
    let (env, r, _) = run("var a = 0; var b = ((a = 5), 2);");
    r.unwrap();
    assert_eq!(env.get("a"), Some(Some(number(5.0))));
    assert_eq!(env.get("b"), Some(Some(number(2.0))));
    // An assignment takes everything to its right, commas included.
    let (env, r, _) = run("var a = 0; var b = (a = 5, 2);");
    r.unwrap();
    assert_eq!(env.get("a"), Some(Some(number(2.0))));
    assert_eq!(env.get("b"), Some(Some(number(2.0))));
}

#[test]
fn block_shadows_and_restores() {
    let (env, r, out) = run("var x = 1; { var x = 2; print x; } print x;");
    r.unwrap();
    assert_eq!(out, vec!["2".to_string(), "1".to_string()]);
    assert_eq!(env.get("x"), Some(Some(number(1.0))));
}

#[test]
fn block_bindings_do_not_leak() {
    let (env, r, _) = run("{ var inner = 1; }");
    r.unwrap();
    assert_eq!(env.get("inner"), None);
}

#[test]
fn assignment_in_block_reaches_the_outer_scope() {
    let (env, r, out) = run("var x = 1; { x = 2; { x = x + 1; } print x; } print x;");
    r.unwrap();
    assert_eq!(out, vec!["3".to_string(), "3".to_string()]);
    assert_eq!(env.get("x"), Some(Some(number(3.0))));
}

#[test]
fn assignment_needs_a_declaration() {
    let (env, r, out) = run("x = 1;");
    let error = r.unwrap_err();
    assert_eq!(error.message(), "Variable \"x\" was not initialized");
    assert_eq!((error.index(), error.len()), (0, 5));
    assert_eq!(env.get("x"), None);
    assert!(out.is_empty());
}

#[test]
fn failed_assignment_does_not_run_its_right_side() {
    let (env, r, _) = run("var y = 1; x = (y = 2);");
    assert!(r.is_err());
    assert_eq!(env.get("y"), Some(Some(number(1.0))));
    assert_eq!(env.get("x"), None);
}

#[test]
fn assignment_yields_the_value_written() {
    let (env, r, _) = run("var a; var b = (a = 7);");
    r.unwrap();
    assert_eq!(env.get("a"), Some(Some(number(7.0))));
    assert_eq!(env.get("b"), Some(Some(number(7.0))));
}

#[test]
fn declared_without_value_reads_as_nil() {
    let (env, r, out) = run("var a; print a; var b = a;");
    r.unwrap();
    assert_eq!(out, vec!["Nil".to_string()]);
    assert_eq!(env.get("a"), Some(None));
    assert_eq!(env.get("b"), Some(Some(LoxResult::Nil)));
}

#[test]
fn reading_an_undeclared_variable_fails() {
    let error = error_of("print 1 + y;");
    assert_eq!(
        error.message(),
        "The variable was not initialized before usage"
    );
    assert_eq!((error.index(), error.len()), (10, 1));
}

#[test]
fn division_by_zero_is_infinity() {
    assert_eq!(value_of("10 / 0"), number(f64::INFINITY));
    assert_eq!(value_of("-10 / 0"), number(f64::NEG_INFINITY));
    match value_of("0 / 0") {
        LoxResult::Number(bits) => assert!(f64::from_bits(bits).is_nan()),
        other => panic!("{:?}", other),
    }
}

#[test]
fn nan_equals_nothing() {
    assert_eq!(value_of("0 / 0 == 0 / 0"), LoxResult::Bool(false));
    assert_eq!(value_of("0 / 0 != 0 / 0"), LoxResult::Bool(true));
    assert_eq!(value_of("0 / 0 < 1"), LoxResult::Bool(false));
    assert_eq!(value_of("0 / 0 >= 1"), LoxResult::Bool(false));
}

#[test]
fn mismatched_types_are_an_error_even_for_equality() {
    let error = error_of("\"1\" == 1;");
    assert_eq!(error.message(), "Cant operate on Str and Number");
    assert_eq!((error.index(), error.len()), (0, 8));
    let error = error_of("1 != nil;");
    assert_eq!(error.message(), "Cant operate on Number and Nil");
    let error = error_of("true + 1;");
    assert_eq!(error.message(), "Cant operate on Bool and Number");
    let error = error_of("1 < \"2\";");
    assert_eq!(error.message(), "Cant operate on Number and Str");
}

#[test]
fn arithmetic_needs_numbers() {
    assert_eq!(
        error_of("true + false;").message(),
        "Can't perform Sum on Bool"
    );
    assert_eq!(error_of("nil + nil;").message(), "Can't perform Sum on Nil");
    assert_eq!(
        error_of("\"a\" - \"b\";").message(),
        "Can't perform Substraction on Str"
    );
    assert_eq!(
        error_of("true * true;").message(),
        "Can't perform Product on Bool"
    );
    assert_eq!(
        error_of("nil / nil;").message(),
        "Can't perform Division on Nil"
    );
}

#[test]
fn unary_operators_check_their_operand() {
    assert_eq!(value_of("!true"), LoxResult::Bool(false));
    assert_eq!(value_of("!!true"), LoxResult::Bool(true));
    assert_eq!(value_of("-3"), number(-3.0));
    assert_eq!(value_of("--3"), number(3.0));
    assert_eq!(value_of("-0"), number(-0.0));
    let error = error_of("!1;");
    assert_eq!(error.message(), "Cant negate type Number");
    assert_eq!((error.index(), error.len()), (0, 2));
    assert_eq!(error_of("-\"a\";").message(), "Cant negate type Str");
    assert_eq!(error_of("-nil;").message(), "Cant negate type Nil");
    assert_eq!(error_of("!nil;").message(), "Cant negate type Nil");
}

#[test]
fn condition_must_be_boolean() {
    let error = error_of("1 ? 2 : 3;");
    assert_eq!(
        error.message(),
        "The condition of a ternary operator must resolve to a boolean but was Number"
    );
    assert_eq!((error.index(), error.len()), (0, 9));
}

#[test]
fn strings_join_and_compare() {
    assert_eq!(value_of("\"foo\" + \"bar\""), text("foobar"));
    assert_eq!(value_of("\"a\" < \"b\""), LoxResult::Bool(true));
    assert_eq!(value_of("\"b\" < \"a\""), LoxResult::Bool(false));
    assert_eq!(value_of("\"a\" < \"ab\""), LoxResult::Bool(true));
    assert_eq!(value_of("\"ab\" <= \"ab\""), LoxResult::Bool(true));
    assert_eq!(value_of("\"ab\" > \"a\""), LoxResult::Bool(true));
    assert_eq!(value_of("\"é\" > \"z\""), LoxResult::Bool(true));
    assert_eq!(value_of("\"a\" == \"a\""), LoxResult::Bool(true));
    assert_eq!(value_of("\"a\" != \"a\""), LoxResult::Bool(false));
}

#[test]
fn numbers_compare() {
    assert_eq!(value_of("1 < 2"), LoxResult::Bool(true));
    assert_eq!(value_of("2 <= 2"), LoxResult::Bool(true));
    assert_eq!(value_of("3 > 2"), LoxResult::Bool(true));
    assert_eq!(value_of("2 >= 3"), LoxResult::Bool(false));
    assert_eq!(value_of("-1 < 1"), LoxResult::Bool(true));
    assert_eq!(value_of("-2 < -1"), LoxResult::Bool(true));
    assert_eq!(value_of("0 == -0"), LoxResult::Bool(true));
    assert_eq!(value_of("0 < -0"), LoxResult::Bool(false));
    assert_eq!(value_of("1.5 == 1.5"), LoxResult::Bool(true));
}

#[test]
fn booleans_and_nil_compare() {
    assert_eq!(value_of("false < true"), LoxResult::Bool(true));
    assert_eq!(value_of("true < false"), LoxResult::Bool(false));
    assert_eq!(value_of("true == true"), LoxResult::Bool(true));
    assert_eq!(value_of("nil == nil"), LoxResult::Bool(true));
    assert_eq!(value_of("nil < nil"), LoxResult::Bool(false));
    assert_eq!(value_of("nil <= nil"), LoxResult::Bool(true));
}

#[test]
fn print_writes_the_display_form() {
    let (_, r, out) = run("print 1.5; print 2; print \"s\"; print true; print false; print nil;");
    r.unwrap();
    assert_eq!(out, vec!["1.5", "2", "s", "true", "false", "Nil"]);
}

#[test]
fn output_before_an_error_stays() {
    let (env, r, out) = run("var a = 1; print a; { var b = 2; print b; print c; print 3; } print 4;");
    let error = r.unwrap_err();
    assert_eq!(
        error.message(),
        "The variable was not initialized before usage"
    );
    assert_eq!(out, vec!["1", "2"]);
    assert_eq!(env.get("a"), Some(Some(number(1.0))));
    assert_eq!(env.get("b"), None);
}

#[test]
fn environment_survives_an_error() {
    let env = Environment::new();
    let first = scan_and_parse("var x = 1;").unwrap();
    let (env, r, _) = drive(&first, env);
    r.unwrap();
    let second = scan_and_parse("{ x = 2; y = 3; }").unwrap();
    let (env, r, _) = drive(&second, env);
    assert!(r.is_err());
    let third = scan_and_parse("print x;").unwrap();
    let (env, r, out) = drive(&third, env);
    r.unwrap();
    assert_eq!(out, vec!["2"]);
    assert_eq!(env.get("x"), Some(Some(number(2.0))));
}

#[test]
fn redeclaring_replaces_the_binding() {
    let (env, r, out) = run("var x = 1; var x = \"two\"; print x; var x;");
    r.unwrap();
    assert_eq!(out, vec!["two"]);
    assert_eq!(env.get("x"), Some(None));
}

#[test]
fn empty_program_finishes_at_once() {
    let stmts: Vec<Stmt> = Vec::new();
    let m = Interpreter::new(&stmts, Environment::new());
    assert!(m.pending().is_none());
    let step = match m.step(Event::Proceed) {
        Step::Continue(m) => m.step(Event::Proceed),
        _ => panic!("the list ends before the run does"),
    };
    match step {
        Step::Finished(env, r) => {
            r.unwrap();
            assert_eq!(env.get("x"), None);
        }
        _ => panic!("nothing is left to do"),
    }
}

#[test]
fn a_wrong_answer_repeats_the_request() {
    let stmts = scan_and_parse("print 1 + 2;").unwrap();
    let mut step = Interpreter::new(&stmts, Environment::new()).step(Event::Proceed);
    let m = loop {
        step = match step {
            Step::Continue(m) => m.step(Event::Proceed),
            Step::Request(m, request) => {
                assert_eq!(request, Request::ReadNumber("1".to_string()));
                break m;
            }
            Step::Finished(..) => panic!("the numeral is still to be read"),
        };
    };
    assert_eq!(m.pending(), Some(&Request::ReadNumber("1".to_string())));
    let m = match m.step(Event::Printed) {
        Step::Request(m, request) => {
            assert_eq!(request, Request::ReadNumber("1".to_string()));
            m
        }
        _ => panic!("the request stands"),
    };
    let m = match m.step(Event::Text("1".to_string())) {
        Step::Request(m, request) => {
            assert_eq!(request, Request::ReadNumber("1".to_string()));
            m
        }
        _ => panic!("the request stands"),
    };
    match m.step(Event::Number(1.0f64.to_bits())) {
        Step::Continue(m) => assert!(m.pending().is_none()),
        _ => panic!("the answer is taken"),
    }
}

#[test]
fn requests_come_in_evaluation_order() {
    let stmts = scan_and_parse("print 1 + 2 * 3;").unwrap();
    let mut requests = Vec::new();
    let mut step = Interpreter::new(&stmts, Environment::new()).step(Event::Proceed);
    loop {
        step = match step {
            Step::Continue(m) => m.step(Event::Proceed),
            Step::Request(m, request) => {
                let event = match &request {
                    Request::ReadNumber(text) => {
                        Event::Number(text.parse::<f64>().unwrap().to_bits())
                    }
                    Request::Compute(op, a, b) => Event::Number(compute(*op, *a, *b)),
                    Request::WriteNumber(bits) => Event::Text(format!("{}", f64::from_bits(*bits))),
                    Request::Print(_) => Event::Printed,
                };
                requests.push(request);
                m.step(event)
            }
            Step::Finished(_, r) => {
                r.unwrap();
                break;
            }
        };
    }
    assert_eq!(
        requests,
        vec![
            Request::ReadNumber("1".to_string()),
            Request::ReadNumber("2".to_string()),
            Request::ReadNumber("3".to_string()),
            Request::Compute(BinOp::Product, 2.0f64.to_bits(), 3.0f64.to_bits()),
            Request::Compute(BinOp::Sum, 1.0f64.to_bits(), 6.0f64.to_bits()),
            Request::WriteNumber(7.0f64.to_bits()),
            Request::Print("7".to_string()),
        ]
    );
}

#[test]
fn resume_runs_up_to_the_next_request() {
    let stmts = scan_and_parse("var a = 2; { var b = (a + 1) * a; print b > a ? \"big\" : \"small\"; }")
        .unwrap();
    let mut requests = Vec::new();
    let mut step = Interpreter::new(&stmts, Environment::new()).resume(Event::Proceed);
    let env = loop {
        step = match step {
            Step::Continue(_) => panic!("a machine that can go on is not handed back"),
            Step::Request(m, request) => {
                let event = match &request {
                    Request::ReadNumber(text) => {
                        Event::Number(text.parse::<f64>().unwrap().to_bits())
                    }
                    Request::Compute(op, a, b) => Event::Number(compute(*op, *a, *b)),
                    Request::WriteNumber(bits) => Event::Text(format!("{}", f64::from_bits(*bits))),
                    Request::Print(_) => Event::Printed,
                };
                requests.push(request);
                m.resume(event)
            }
            Step::Finished(env, r) => {
                r.unwrap();
                break env;
            }
        };
    };
    assert_eq!(
        requests,
        vec![
            Request::ReadNumber("2".to_string()),
            Request::ReadNumber("1".to_string()),
            Request::Compute(BinOp::Sum, 2.0f64.to_bits(), 1.0f64.to_bits()),
            Request::Compute(BinOp::Product, 3.0f64.to_bits(), 2.0f64.to_bits()),
            Request::Print("big".to_string()),
        ]
    );
    assert_eq!(env.get("a"), Some(Some(number(2.0))));
    assert_eq!(env.get("b"), None);
}

#[test]
fn resume_and_step_agree() {
    let code = "var x = 1; { var y = x + 2; print y * 2; x = y; } print x; print -nil;";
    let stmts = scan_and_parse(code).unwrap();
    let (env, r, out) = drive(&stmts, Environment::new());
    let mut lines = Vec::new();
    let mut step = Interpreter::new(&stmts, Environment::new()).resume(Event::Proceed);
    let (env2, r2) = loop {
        step = match step {
            Step::Continue(m) => m.resume(Event::Proceed),
            Step::Request(m, Request::ReadNumber(text)) => {
                m.resume(Event::Number(text.parse::<f64>().unwrap().to_bits()))
            }
            Step::Request(m, Request::Compute(op, a, b)) => {
                m.resume(Event::Number(compute(op, a, b)))
            }
            Step::Request(m, Request::WriteNumber(bits)) => {
                m.resume(Event::Text(format!("{}", f64::from_bits(bits))))
            }
            Step::Request(m, Request::Print(line)) => {
                lines.push(line);
                m.resume(Event::Printed)
            }
            Step::Finished(env, r) => break (env, r),
        };
    };
    assert_eq!(out, vec!["6", "3"]);
    assert_eq!(lines, out);
    assert_eq!(r.unwrap_err().message(), "Cant negate type Nil");
    assert_eq!(r2.unwrap_err().message(), "Cant negate type Nil");
    assert_eq!(env.get("x"), Some(Some(number(3.0))));
    assert_eq!(env2.get("x"), Some(Some(number(3.0))));
}

#[test]
fn runtime_error_prints_as_one_line() {
    let error = error_of("print 12 + -true;");
    assert_eq!(error.to_string(), "Error: Cant negate type Bool at 11 until 5");
}
