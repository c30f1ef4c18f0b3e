use lox::ast::{BinOp, Expr, Literal};
use lox::lexer::{tokenize, TokenKind};
use lox::parser::{expression, TokenStream};

fn stream(code: &str) -> TokenStream {
    TokenStream::new(
        tokenize(code)
            .into_iter()
            .filter(|t| t.kind != TokenKind::Whitespace)
            .collect(),
    )
}

fn number(text: &str, index: usize, len: usize) -> Box<Expr> {
    Box::new(Expr::Literal {
        value: Literal::Number(text.to_string()),
        index,
        len,
    })
}

fn truth(index: usize, len: usize) -> Box<Expr> {
    Box::new(Expr::Literal {
        value: Literal::True,
        index,
        len,
    })
}

#[test]
fn parse_comma_operator() {
    let mut tokens = stream("1,2,3");
    let ast = expression(&mut tokens).unwrap();
    let expected = Expr::Binary {
        left: Box::new(Expr::Binary {
            left: number("1", 0, 1),
            operator: BinOp::Comma,
            right: number("2", 2, 1),
            index: 0,
            len: 3,
        }),
        operator: BinOp::Comma,
        right: number("3", 4, 1),
        index: 0,
        len: 5,
    };

    assert_eq!(ast, expected);
}

#[test]
fn parse_ternary_expression() {
    // simple
    let mut tokens = stream("true ? 1 : 2");
    let ast = expression(&mut tokens).unwrap();
    let expected = Expr::Ternary {
        condition: truth(0, 4),
        left: number("1", 7, 1),
        right: number("2", 11, 1),
        index: 0,
        len: 12,
    };

    assert_eq!(ast, expected);

    // eq on condition
    let mut tokens = stream("1 == 2 ? 1 : 2");
    let ast = expression(&mut tokens).unwrap();
    let expected = Expr::Ternary {
        condition: Box::new(Expr::Binary {
            left: number("1", 0, 1),
            operator: BinOp::Equals,
            right: number("2", 5, 1),
            index: 0,
            len: 6,
        }),
        left: number("1", 9, 1),
        right: number("2", 13, 1),
        index: 0,
        len: 14,
    };

    assert_eq!(ast, expected);

    // binary op on branches
    let mut tokens = stream("true ? 1 - 2 : 1 + 2");
    let ast = expression(&mut tokens).unwrap();
    let expected = Expr::Ternary {
        condition: truth(0, 4),
        left: Box::new(Expr::Binary {
            left: number("1", 7, 1),
            operator: BinOp::Substraction,
            right: number("2", 11, 1),
            index: 7,
            len: 5,
        }),
        right: Box::new(Expr::Binary {
            left: number("1", 15, 1),
            operator: BinOp::Sum,
            right: number("2", 19, 1),
            index: 15,
            len: 5,
        }),
        index: 0,
        len: 20,
    };

    assert_eq!(ast, expected);

    // nested right
    let mut tokens = stream("true ? 1 : 2 ? 3 : 4");
    let ast = expression(&mut tokens).unwrap();
    let expected = Expr::Ternary {
        condition: truth(0, 4),
        left: number("1", 7, 1),
        right: Box::new(Expr::Ternary {
            condition: number("2", 11, 1),
            left: number("3", 15, 1),
            right: number("4", 19, 1),
            index: 11,
            len: 9,
        }),
        index: 0,
        len: 20,
    };

    assert_eq!(ast, expected);

    // nested left
    let mut tokens = stream("true ? 1 ? 2 : 3 : 4");
    let ast = expression(&mut tokens).unwrap();
    let expected = Expr::Ternary {
        condition: truth(0, 4),
        left: Box::new(Expr::Ternary {
            condition: number("1", 7, 1),
            left: number("2", 11, 1),
            right: number("3", 15, 1),
            index: 7,
            len: 9,
        }),
        right: number("4", 19, 1),
        index: 0,
        len: 20,
    };

    assert_eq!(ast, expected);
}
