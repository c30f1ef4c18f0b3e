use lox::ast::{BinOp, Expr, Literal, Stmt, UnaryOp};
use lox::lexer::{scan, KeywordKind, Token, TokenKind};
use lox::parser::{
    binary, block, expression, expression_statement, grouping, matches_any, operand, parse,
    primary, print_statement, scan_and_parse, statement, unary, var_declaration, Level,
    LoxSyntaxError, TokenStream,
};

fn stream(code: &str) -> TokenStream {
    TokenStream::new(scan(code))
}

fn syntax_error(code: &str) -> LoxSyntaxError {
    scan_and_parse(code).unwrap_err()
}

fn shape(e: &LoxSyntaxError) -> (&str, usize, usize) {
    (e.message(), e.index(), e.len())
}

fn number(text: &str, index: usize, len: usize) -> Expr {
    Expr::Literal {
        value: Literal::Number(text.to_string()),
        index,
        len,
    }
}

fn variable(name: &str, index: usize, len: usize) -> Expr {
    Expr::Variable {
        index,
        len,
        value: name.to_string(),
    }
}

#[test]
fn statements_of_every_kind() {
    let program = scan_and_parse("print 1; 2; var a; var b = 3; { a = b; }").unwrap();
    assert_eq!(
        program,
        vec![
            Stmt::Print(number("1", 6, 1)),
            Stmt::Expression(number("2", 9, 1)),
            Stmt::Variable("a".to_string(), None),
            Stmt::Variable("b".to_string(), Some(number("3", 27, 1))),
            Stmt::Block(vec![Stmt::Expression(Expr::Assign {
                index: 32,
                len: 5,
                key: "a".to_string(),
                value: Box::new(variable("b", 36, 1)),
            })]),
        ]
    );
}

#[test]
fn empty_program_and_empty_block() {
    assert_eq!(scan_and_parse("").unwrap(), vec![]);
    assert_eq!(scan_and_parse("  // nothing\n").unwrap(), vec![]);
    assert_eq!(scan_and_parse("{}").unwrap(), vec![Stmt::Block(vec![])]);
    assert_eq!(
        scan_and_parse("{{}}").unwrap(),
        vec![Stmt::Block(vec![Stmt::Block(vec![])])]
    );
}

#[test]
fn binary_spans_run_from_left_to_right_operand() {
    let mut tokens = stream("10 + 200 * 3");
    let ast = expression(&mut tokens).unwrap();
    assert_eq!(
        ast,
        Expr::Binary {
            left: Box::new(number("10", 0, 2)),
            operator: BinOp::Sum,
            right: Box::new(Expr::Binary {
                left: Box::new(number("200", 5, 3)),
                operator: BinOp::Product,
                right: Box::new(number("3", 11, 1)),
                index: 5,
                len: 7,
            }),
            index: 0,
            len: 12,
        }
    );
    assert_eq!((ast.index(), ast.len()), (0, 12));
}

#[test]
fn operators_associate_to_the_left() {
    let mut tokens = stream("1 - 2 - 3");
    assert_eq!(
        expression(&mut tokens).unwrap(),
        Expr::Binary {
            left: Box::new(Expr::Binary {
                left: Box::new(number("1", 0, 1)),
                operator: BinOp::Substraction,
                right: Box::new(number("2", 4, 1)),
                index: 0,
                len: 5,
            }),
            operator: BinOp::Substraction,
            right: Box::new(number("3", 8, 1)),
            index: 0,
            len: 9,
        }
    );
}

#[test]
fn every_binary_operator() {
    let cases = [
        ("1 + 2", BinOp::Sum),
        ("1 - 2", BinOp::Substraction),
        ("1 * 2", BinOp::Product),
        ("1 / 2", BinOp::Division),
        ("1 == 2", BinOp::Equals),
        ("1 != 2", BinOp::NotEquals),
        ("1 > 2", BinOp::GreaterThan),
        ("1 >= 2", BinOp::GreaterThanEquals),
        ("1 < 2", BinOp::LessThan),
        ("1 <= 2", BinOp::LessThanEquals),
        ("1 , 2", BinOp::Comma),
    ];
    for (code, op) in cases {
        let mut tokens = stream(code);
        match expression(&mut tokens).unwrap() {
            Expr::Binary {
                operator,
                index,
                len,
                ..
            } => {
                assert_eq!(operator, op);
                assert_eq!((index, len), (0, code.len()));
            }
            other => panic!("{:?}", other),
        }
    }
}

#[test]
fn unary_and_grouping_spans() {
    let mut tokens = stream("-(1 + 2)");
    assert_eq!(
        expression(&mut tokens).unwrap(),
        Expr::Unary {
            operator: UnaryOp::Negate,
            right: Box::new(Expr::Grouping {
                expr: Box::new(Expr::Binary {
                    left: Box::new(number("1", 2, 1)),
                    operator: BinOp::Sum,
                    right: Box::new(number("2", 6, 1)),
                    index: 2,
                    len: 5,
                }),
                index: 2,
                len: 5,
            }),
            index: 0,
            len: 7,
        }
    );
    let mut tokens = stream("!!true");
    assert_eq!(
        expression(&mut tokens).unwrap(),
        Expr::Unary {
            operator: UnaryOp::LogicNegate,
            right: Box::new(Expr::Unary {
                operator: UnaryOp::LogicNegate,
                right: Box::new(Expr::Literal {
                    value: Literal::True,
                    index: 2,
                    len: 4
                }),
                index: 1,
                len: 5,
            }),
            index: 0,
            len: 6,
        }
    );
}

#[test]
fn every_literal() {
    let cases = [
        ("false", Literal::False),
        ("nil", Literal::Nil),
        ("true", Literal::True),
        ("12.5", Literal::Number("12.5".to_string())),
        ("\"text\"", Literal::Str("text".to_string())),
        ("\"open", Literal::Str("open".to_string())),
    ];
    for (code, value) in cases {
        let mut tokens = stream(code);
        assert_eq!(
            primary(&mut tokens).unwrap(),
            Expr::Literal {
                value,
                index: 0,
                len: code.len()
            }
        );
    }
}

#[test]
fn assignment_is_right_associative_and_loosest() {
    let mut tokens = stream("a = b = 1 ? 2 : 3");
    assert_eq!(
        expression(&mut tokens).unwrap(),
        Expr::Assign {
            index: 0,
            len: 17,
            key: "a".to_string(),
            value: Box::new(Expr::Assign {
                index: 4,
                len: 13,
                key: "b".to_string(),
                value: Box::new(Expr::Ternary {
                    condition: Box::new(number("1", 8, 1)),
                    left: Box::new(number("2", 12, 1)),
                    right: Box::new(number("3", 16, 1)),
                    index: 8,
                    len: 9,
                }),
            }),
        }
    );
}

#[test]
fn only_a_name_can_be_assigned_to() {
    assert_eq!(
        shape(&syntax_error("(a) = 1;")),
        ("Expected ';' after value.", 2, 0)
    );
    assert_eq!(
        shape(&syntax_error("1 = 2;")),
        ("Expected ';' after value.", 1, 0)
    );
}

#[test]
fn missing_semicolon_points_past_the_expression() {
    assert_eq!(
        shape(&syntax_error("print 1 + 2")),
        ("Expected ';' after value.", 11, 0)
    );
    assert_eq!(
        shape(&syntax_error("1 + 2")),
        ("Expected ';' after value.", 5, 0)
    );
    assert_eq!(
        shape(&syntax_error("1 2;")),
        ("Expected ';' after value.", 1, 0)
    );
    assert_eq!(
        shape(&syntax_error("print 1; 2 print 3;")),
        ("Expected ';' after value.", 10, 0)
    );
}

#[test]
fn missing_closing_parenthesis() {
    assert_eq!(
        shape(&syntax_error("(1 + 2;")),
        (
            "The token Semicolon was not expected, a ')' was expected",
            6,
            1
        )
    );
    assert_eq!(
        shape(&syntax_error("(1 2)")),
        (
            "The token Literal(Number(2)) was not expected, a ')' was expected",
            3,
            1
        )
    );
    assert_eq!(
        shape(&syntax_error("(a b)")),
        (
            "The token Identifier(\"b\") was not expected, a ')' was expected",
            3,
            1
        )
    );
    assert_eq!(
        shape(&syntax_error("(1 + 2")),
        ("Expected ')' after grouped expression", 1, 5)
    );
}

#[test]
fn token_that_starts_no_expression() {
    assert_eq!(
        shape(&syntax_error("1 + ;")),
        ("Token \"Semicolon\" does not match a valid expression", 4, 1)
    );
    assert_eq!(
        shape(&syntax_error("* 2;")),
        ("Token \"Star\" does not match a valid expression", 0, 1)
    );
    assert_eq!(
        shape(&syntax_error("print while;")),
        (
            "Token \"Keyword(While)\" does not match a valid expression",
            6,
            5
        )
    );
    assert_eq!(
        shape(&syntax_error("@;")),
        ("Token \"Unknown\" does not match a valid expression", 0, 1)
    );
    assert_eq!(
        shape(&syntax_error("}")),
        ("Token \"RightBrace\" does not match a valid expression", 0, 1)
    );
}

#[test]
fn input_that_ends_where_an_expression_starts() {
    assert_eq!(
        shape(&syntax_error("1 +")),
        ("The expression is does not have a leaf node", 0, 0)
    );
    assert_eq!(
        shape(&syntax_error("print")),
        ("The expression is does not have a leaf node", 0, 0)
    );
    assert_eq!(
        shape(&syntax_error("(")),
        ("The expression is does not have a leaf node", 0, 0)
    );
    assert_eq!(
        shape(&syntax_error("-")),
        ("The expression is does not have a leaf node", 0, 0)
    );
    let mut tokens = stream("");
    assert_eq!(
        shape(&expression(&mut tokens).unwrap_err()),
        ("The expression is does not have a leaf node", 0, 0)
    );
}

#[test]
fn ternary_without_its_colon() {
    assert_eq!(
        shape(&syntax_error("true ? 1 ; 2;")),
        (
            "Ternary operation missing one branch, expected colon instead",
            9,
            1
        )
    );
    assert_eq!(
        shape(&syntax_error("true ? 1 + 2")),
        ("Ternary operation missing one branch, expected colon", 7, 5)
    );
}

#[test]
fn malformed_declarations() {
    assert_eq!(
        shape(&syntax_error("var 1 = 2;")),
        ("Expected a variable name after 'var'.", 4, 1)
    );
    assert_eq!(
        shape(&syntax_error("var print;")),
        ("Expected a variable name after 'var'.", 4, 5)
    );
    assert_eq!(
        shape(&syntax_error("var")),
        ("Expected a variable name after 'var'.", 0, 0)
    );
    assert_eq!(
        shape(&syntax_error("var a")),
        ("Expected ';' after variable declaration.", 5, 0)
    );
    assert_eq!(
        shape(&syntax_error("var a 1;")),
        ("Expected ';' after variable declaration.", 5, 0)
    );
    assert_eq!(
        shape(&syntax_error("var a = 1 + 2")),
        ("Expected ';' after variable declaration.", 13, 0)
    );
    assert_eq!(
        shape(&syntax_error("var a = ;")),
        ("Token \"Semicolon\" does not match a valid expression", 8, 1)
    );
}

#[test]
fn unclosed_block() {
    assert_eq!(
        shape(&syntax_error("{ print 1;")),
        ("Expected '}' after block.", 0, 0)
    );
    assert_eq!(
        shape(&syntax_error("{ { } ")),
        ("Expected '}' after block.", 0, 0)
    );
    assert_eq!(
        shape(&syntax_error("{ print 1 }")),
        ("Expected ';' after value.", 9, 0)
    );
}

#[test]
fn first_error_ends_the_parse() {
    assert_eq!(
        shape(&syntax_error("print 1; print ; print )")),
        ("Token \"Semicolon\" does not match a valid expression", 15, 1)
    );
}

#[test]
fn comments_are_no_syntax() {
    assert_eq!(
        scan_and_parse("print 1; // one\nprint 2; // two").unwrap(),
        vec![
            Stmt::Print(number("1", 6, 1)),
            Stmt::Print(number("2", 22, 1)),
        ]
    );
}

#[test]
fn syntax_error_prints_as_one_line() {
    assert_eq!(
        syntax_error("print 1 + 2").to_string(),
        "Error: Expected ';' after value. at 11 until 0"
    );
    assert_eq!(
        LoxSyntaxError::new("m".to_string(), 1234567890, 10).to_string(),
        "Error: m at 1234567890 until 10"
    );
}

#[test]
fn operators_from_tokens() {
    let token = |kind| Token {
        kind,
        index: 0,
        len: 1,
    };
    assert_eq!(BinOp::try_from(&token(TokenKind::Equals)), Ok(BinOp::Equals));
    assert_eq!(BinOp::try_from(&token(TokenKind::NotEquals)), Ok(BinOp::NotEquals));
    assert_eq!(BinOp::try_from(&token(TokenKind::GreaterThan)), Ok(BinOp::GreaterThan));
    assert_eq!(
        BinOp::try_from(&token(TokenKind::GreaterThanEquals)),
        Ok(BinOp::GreaterThanEquals)
    );
    assert_eq!(BinOp::try_from(&token(TokenKind::LessThan)), Ok(BinOp::LessThan));
    assert_eq!(
        BinOp::try_from(&token(TokenKind::LessThanEquals)),
        Ok(BinOp::LessThanEquals)
    );
    assert_eq!(BinOp::try_from(&token(TokenKind::Minus)), Ok(BinOp::Substraction));
    assert_eq!(BinOp::try_from(&token(TokenKind::Plus)), Ok(BinOp::Sum));
    assert_eq!(BinOp::try_from(&token(TokenKind::Star)), Ok(BinOp::Product));
    assert_eq!(BinOp::try_from(&token(TokenKind::Slash)), Ok(BinOp::Division));
    assert_eq!(BinOp::try_from(&token(TokenKind::Comma)), Ok(BinOp::Comma));
    assert_eq!(
        BinOp::try_from(&token(TokenKind::Bang)),
        Err("Bang is not a valid binary operator".to_string())
    );
    assert_eq!(
        BinOp::try_from(&token(TokenKind::Identifier("x".to_string()))),
        Err("Identifier(\"x\") is not a valid binary operator".to_string())
    );
    assert_eq!(UnaryOp::try_from(&token(TokenKind::Minus)), Ok(UnaryOp::Negate));
    assert_eq!(UnaryOp::try_from(&token(TokenKind::Bang)), Ok(UnaryOp::LogicNegate));
    assert_eq!(
        UnaryOp::try_from(&token(TokenKind::Plus)),
        Err("Plus is not a valid unary operation".to_string())
    );
    assert_eq!(
        UnaryOp::try_from(&token(TokenKind::Keyword(KeywordKind::Nil))),
        Err("Keyword(Nil) is not a valid unary operation".to_string())
    );
}

#[test]
fn peeking_consumes_nothing() {
    let mut tokens = stream("+ 1");
    assert!(matches_any(&tokens, vec![TokenKind::Minus, TokenKind::Plus]));
    assert!(matches_any(&tokens, vec![TokenKind::Plus]));
    assert!(!matches_any(&tokens, vec![TokenKind::Minus, TokenKind::Star]));
    assert!(!matches_any(&tokens, vec![]));
    assert_eq!(tokens.peek().map(|t| t.kind.clone()), Some(TokenKind::Plus));
    assert_eq!(
        tokens.peek_second().map(|t| t.index),
        Some(2)
    );
    assert!(!tokens.is_empty());
    tokens.advance();
    assert!(!matches_any(&tokens, vec![TokenKind::Plus]));
    assert!(tokens.peek_second().is_none());
    tokens.advance();
    assert!(tokens.is_empty());
    assert!(tokens.peek().is_none());
    assert!(!matches_any(&tokens, vec![TokenKind::Plus]));
}

#[test]
fn each_level_stops_at_looser_operators() {
    let mut tokens = stream("1 * 2 + 3");
    let product = binary(&mut tokens, Level::Factor).unwrap();
    assert_eq!((product.index(), product.len()), (0, 5));
    assert!(matches_any(&tokens, vec![TokenKind::Plus]));

    let mut tokens = stream("1 * 2 + 3");
    let first = operand(&mut tokens, Level::Factor).unwrap();
    assert_eq!(first, number("1", 0, 1));

    let mut tokens = stream("1 + 2 == 3, 4");
    let sum = binary(&mut tokens, Level::Term).unwrap();
    assert_eq!((sum.index(), sum.len()), (0, 5));
    let mut tokens = stream("1 + 2 == 3, 4");
    let equality = binary(&mut tokens, Level::Equality).unwrap();
    assert_eq!((equality.index(), equality.len()), (0, 10));
    let mut tokens = stream("1 + 2 == 3, 4");
    let comma = binary(&mut tokens, Level::Comma).unwrap();
    assert_eq!((comma.index(), comma.len()), (0, 13));

    let mut tokens = stream("-1 * 2");
    let negation = unary(&mut tokens).unwrap();
    assert_eq!((negation.index(), negation.len()), (0, 2));
}

#[test]
fn grouping_starts_after_its_parenthesis() {
    let mut tokens = stream("1 + 2) * 3");
    assert_eq!(
        grouping(&mut tokens).unwrap(),
        Expr::Grouping {
            expr: Box::new(Expr::Binary {
                left: Box::new(number("1", 0, 1)),
                operator: BinOp::Sum,
                right: Box::new(number("2", 4, 1)),
                index: 0,
                len: 5,
            }),
            index: 0,
            len: 5,
        }
    );
    assert!(matches_any(&tokens, vec![TokenKind::Star]));
    let mut tokens = stream("(nil))");
    assert_eq!(
        grouping(&mut tokens).unwrap(),
        Expr::Grouping {
            expr: Box::new(Expr::Grouping {
                expr: Box::new(Expr::Literal {
                    value: Literal::Nil,
                    index: 1,
                    len: 3
                }),
                index: 1,
                len: 3,
            }),
            index: 1,
            len: 3,
        }
    );
    assert!(tokens.is_empty());
}

#[test]
fn statement_parsers_start_after_their_keyword() {
    let mut tokens = stream("1;");
    assert_eq!(
        print_statement(&mut tokens).unwrap(),
        Stmt::Print(number("1", 0, 1))
    );
    let mut tokens = stream("1;");
    assert_eq!(
        expression_statement(&mut tokens).unwrap(),
        Stmt::Expression(number("1", 0, 1))
    );
    let mut tokens = stream("a = 1;");
    assert_eq!(
        var_declaration(&mut tokens).unwrap(),
        Stmt::Variable("a".to_string(), Some(number("1", 4, 1)))
    );
    let mut tokens = stream("1; }");
    assert_eq!(
        block(&mut tokens).unwrap(),
        Stmt::Block(vec![Stmt::Expression(number("1", 0, 1))])
    );
    let mut tokens = stream("print 1; print 2;");
    assert_eq!(
        statement(&mut tokens).unwrap(),
        Stmt::Print(number("1", 6, 1))
    );
    assert_eq!(
        parse(&mut tokens).unwrap(),
        vec![Stmt::Print(number("2", 15, 1))]
    );
    assert!(tokens.is_empty());
}
