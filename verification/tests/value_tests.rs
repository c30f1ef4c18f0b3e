use lox::ast::{BinOp, UnaryOp};
use lox::interpreter::{
    negate_number, number_is_less, numbers_equal, text_is_less, Environment, LoxResult,
    LoxRuntimeError, LoxType,
};
use lox::semantics::{binary_result, unary_result, Outcome};
use lox::text::{char_width, chars_of, decimal_text, span_bytes, str_equal, text_of};

fn samples() -> Vec<f64> {
    vec![
        0.0,
        -0.0,
        1.0,
        -1.0,
        0.5,
        -0.5,
        2.0,
        1e300,
        -1e300,
        f64::MIN_POSITIVE,
        -f64::MIN_POSITIVE,
        5e-324,
        -5e-324,
        f64::MAX,
        f64::MIN,
        f64::INFINITY,
        f64::NEG_INFINITY,
        f64::NAN,
        -f64::NAN,
        f64::from_bits(0x7ff0_0000_0000_0001),
        f64::from_bits(0xfff8_0000_0000_0001),
        f64::EPSILON,
        3.141592653589793,
        -2.718281828459045,
    ]
}

#[test]
fn equality_of_doubles_by_their_bits() {
    for a in samples() {
        for b in samples() {
            assert_eq!(
                numbers_equal(a.to_bits(), b.to_bits()),
                a == b,
                "{:?} == {:?}",
                a,
                b
            );
        }
    }
}

#[test]
fn order_of_doubles_by_their_bits() {
    for a in samples() {
        for b in samples() {
            assert_eq!(
                number_is_less(a.to_bits(), b.to_bits()),
                a < b,
                "{:?} < {:?}",
                a,
                b
            );
        }
    }
}

#[test]
fn negation_flips_the_sign() {
    for a in samples() {
        assert_eq!(negate_number(a.to_bits()), (-a).to_bits(), "-{:?}", a);
    }
    assert_eq!(negate_number(0), 0x8000_0000_0000_0000);
    assert_eq!(negate_number(0x8000_0000_0000_0000), 0);
}

#[test]
fn order_of_texts() {
    let words = ["", "a", "ab", "abc", "b", "B", "é", "z", "zz", "△", "𝒳"];
    for a in words {
        for b in words {
            assert_eq!(text_is_less(a, b), a < b, "{:?} < {:?}", a, b);
        }
    }
}

#[test]
fn values_know_their_type() {
    assert_eq!(LoxResult::Number(0).get_type(), LoxType::Number);
    assert_eq!(LoxResult::Str(String::new()).get_type(), LoxType::Str);
    assert_eq!(LoxResult::Bool(true).get_type(), LoxType::Bool);
    assert_eq!(LoxResult::Nil.get_type(), LoxType::Nil);
    assert_eq!(LoxType::Number.name(), "Number");
    assert_eq!(LoxType::Str.name(), "Str");
    assert_eq!(LoxType::Bool.name(), "Bool");
    assert_eq!(LoxType::Nil.name(), "Nil");
    assert_eq!(LoxResult::Number(7).unwrap_number(), 7);
    assert_eq!(LoxResult::Str("s".to_string()).unwrap_string(), "s");
    assert_eq!(LoxResult::Str("s".to_string()).clone(), LoxResult::Str("s".to_string()));
}

#[test]
fn values_compare() {
    let one = LoxResult::Number(1.0f64.to_bits());
    let two = LoxResult::Number(2.0f64.to_bits());
    let nan = LoxResult::Number(f64::NAN.to_bits());
    assert!(one.equals(&one));
    assert!(!one.equals(&two));
    assert!(!nan.equals(&nan));
    assert!(one.less_than(&two));
    assert!(!two.less_than(&one));
    assert!(!one.equals(&LoxResult::Bool(true)));
    assert!(!LoxResult::Nil.equals(&LoxResult::Bool(false)));
    assert!(LoxResult::Nil.equals(&LoxResult::Nil));
    assert!(!LoxResult::Nil.less_than(&LoxResult::Nil));
    assert!(LoxResult::Bool(false).less_than(&LoxResult::Bool(true)));
    assert!(!LoxResult::Bool(true).less_than(&LoxResult::Bool(true)));
    assert!(LoxResult::Str("a".to_string()).less_than(&LoxResult::Str("b".to_string())));
    assert!(LoxResult::Str("a".to_string()).equals(&LoxResult::Str("a".to_string())));
}

#[test]
fn unary_operators_on_values() {
    assert_eq!(
        unary_result(UnaryOp::LogicNegate, LoxResult::Bool(true)),
        Ok(LoxResult::Bool(false))
    );
    assert_eq!(
        unary_result(UnaryOp::Negate, LoxResult::Number(1.5f64.to_bits())),
        Ok(LoxResult::Number((-1.5f64).to_bits()))
    );
    assert_eq!(
        unary_result(UnaryOp::Negate, LoxResult::Bool(true)),
        Err("Cant negate type Bool".to_string())
    );
    assert_eq!(
        unary_result(UnaryOp::LogicNegate, LoxResult::Str("s".to_string())),
        Err("Cant negate type Str".to_string())
    );
}

#[test]
fn binary_operators_on_values() {
    let one = || LoxResult::Number(1.0f64.to_bits());
    let two = || LoxResult::Number(2.0f64.to_bits());
    let text = |s: &str| LoxResult::Str(s.to_string());
    for op in [BinOp::Sum, BinOp::Substraction, BinOp::Product, BinOp::Division] {
        assert_eq!(
            binary_result(op, one(), two()),
            Outcome::Compute(op, 1.0f64.to_bits(), 2.0f64.to_bits())
        );
    }
    assert_eq!(
        binary_result(BinOp::Sum, text("a"), text("b")),
        Outcome::Value(text("ab"))
    );
    assert_eq!(
        binary_result(BinOp::Product, text("a"), text("b")),
        Outcome::Failure("Can't perform Product on Str".to_string())
    );
    assert_eq!(
        binary_result(BinOp::Sum, LoxResult::Nil, LoxResult::Nil),
        Outcome::Failure("Can't perform Sum on Nil".to_string())
    );
    assert_eq!(
        binary_result(BinOp::Equals, one(), text("1")),
        Outcome::Failure("Cant operate on Number and Str".to_string())
    );
    assert_eq!(
        binary_result(BinOp::Comma, one(), text("1")),
        Outcome::Value(text("1"))
    );
    assert_eq!(
        binary_result(BinOp::Equals, one(), one()),
        Outcome::Value(LoxResult::Bool(true))
    );
    assert_eq!(
        binary_result(BinOp::NotEquals, one(), one()),
        Outcome::Value(LoxResult::Bool(false))
    );
    assert_eq!(
        binary_result(BinOp::LessThan, one(), two()),
        Outcome::Value(LoxResult::Bool(true))
    );
    assert_eq!(
        binary_result(BinOp::LessThanEquals, two(), two()),
        Outcome::Value(LoxResult::Bool(true))
    );
    assert_eq!(
        binary_result(BinOp::GreaterThan, one(), two()),
        Outcome::Value(LoxResult::Bool(false))
    );
    assert_eq!(
        binary_result(BinOp::GreaterThanEquals, two(), one()),
        Outcome::Value(LoxResult::Bool(true))
    );
    for op in [
        BinOp::Sum,
        BinOp::Substraction,
        BinOp::Product,
        BinOp::Division,
        BinOp::Equals,
        BinOp::NotEquals,
        BinOp::GreaterThan,
        BinOp::GreaterThanEquals,
        BinOp::LessThan,
        BinOp::LessThanEquals,
        BinOp::Comma,
    ] {
        assert_eq!(op.name(), format!("{:?}", op));
    }
}

#[test]
fn scopes_chain() {
    let mut global = Environment::new();
    assert_eq!(global.get("x"), None);
    global.declare("x".to_string(), Some(LoxResult::Number(1)));
    global.declare("u".to_string(), None);
    assert_eq!(global.get("x"), Some(Some(LoxResult::Number(1))));
    assert_eq!(global.get("u"), Some(None));
    assert_eq!(global.get("y"), None);

    let mut inner = Environment::with_parent(global);
    assert_eq!(inner.get("x"), Some(Some(LoxResult::Number(1))));
    inner.declare("x".to_string(), Some(LoxResult::Number(2)));
    assert_eq!(inner.get("x"), Some(Some(LoxResult::Number(2))));
    assert_eq!(inner.set("x", LoxResult::Number(3)), Ok(()));
    assert_eq!(inner.get("x"), Some(Some(LoxResult::Number(3))));
    assert_eq!(inner.set("u", LoxResult::Bool(true)), Ok(()));
    assert_eq!(inner.set("missing", LoxResult::Nil), Err(()));
    assert_eq!(inner.get("missing"), None);
    inner.declare("local".to_string(), None);

    let global = inner.into_parent();
    assert_eq!(global.get("x"), Some(Some(LoxResult::Number(1))));
    assert_eq!(global.get("u"), Some(Some(LoxResult::Bool(true))));
    assert_eq!(global.get("local"), None);

    // The global scope is never left.
    let global = global.into_parent();
    assert_eq!(global.get("x"), Some(Some(LoxResult::Number(1))));
}

#[test]
fn redeclaring_in_one_scope_replaces() {
    let mut env = Environment::new();
    env.declare("a".to_string(), Some(LoxResult::Number(1)));
    env.declare("b".to_string(), Some(LoxResult::Number(2)));
    env.declare("a".to_string(), Some(LoxResult::Str("new".to_string())));
    assert_eq!(env.get("a"), Some(Some(LoxResult::Str("new".to_string()))));
    assert_eq!(env.get("b"), Some(Some(LoxResult::Number(2))));
    env.declare("a".to_string(), None);
    assert_eq!(env.get("a"), Some(None));
    assert_eq!(env.set("a", LoxResult::Nil), Ok(()));
    assert_eq!(env.get("a"), Some(Some(LoxResult::Nil)));
    assert_eq!(env.get(""), None);
}

#[test]
fn runtime_error_fields() {
    let error = LoxRuntimeError::new("message".to_string(), 3, 4);
    assert_eq!(error.message(), "message");
    assert_eq!(error.index(), 3);
    assert_eq!(error.len(), 4);
    assert_eq!(error.to_string(), "Error: message at 3 until 4");
}

#[test]
fn decimal_numerals() {
    assert_eq!(decimal_text(0), "0");
    assert_eq!(decimal_text(7), "7");
    assert_eq!(decimal_text(10), "10");
    assert_eq!(decimal_text(99), "99");
    assert_eq!(decimal_text(100), "100");
    assert_eq!(decimal_text(1234567890), "1234567890");
    assert_eq!(decimal_text(usize::MAX), usize::MAX.to_string());
}

#[test]
fn text_helpers() {
    assert_eq!(chars_of("aé△𝒳"), vec!['a', 'é', '△', '𝒳']);
    assert_eq!(chars_of(""), Vec::<char>::new());
    for c in ['\0', 'a', '\u{7f}', '\u{80}', 'é', '\u{7ff}', '\u{800}', '△', '\u{ffff}', '\u{10000}', '𝒳', '\u{10ffff}'] {
        assert_eq!(char_width(c), c.len_utf8());
    }
    let chars = chars_of("aé△𝒳");
    assert_eq!(span_bytes(&chars, 0, 4), 10);
    assert_eq!(span_bytes(&chars, 1, 3), 5);
    assert_eq!(span_bytes(&chars, 2, 2), 0);
    assert_eq!(text_of(&chars, 1, 3), "é△");
    assert_eq!(text_of(&chars, 0, 0), "");
    assert!(str_equal("abc", "abc"));
    assert!(str_equal("", ""));
    assert!(!str_equal("abc", "abd"));
    assert!(!str_equal("abc", "ab"));
    assert!(!str_equal("é", "e"));
}
