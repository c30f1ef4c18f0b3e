use lox::lexer::{
    consume_while, is_digit, is_ident_continue, is_ident_start, is_in_class, is_whitespace,
    next_token, scan, tokenize, CharClass, KeywordKind, LiteralKind, Token, TokenKind,
};

fn kinds(code: &str) -> Vec<TokenKind> {
    tokenize(code).into_iter().map(|t| t.kind).collect()
}

fn spans(code: &str) -> Vec<(usize, usize)> {
    tokenize(code).into_iter().map(|t| (t.index, t.len)).collect()
}

fn number(text: &str) -> TokenKind {
    TokenKind::Literal(LiteralKind::Number(text.to_string()))
}

fn string(value: &str, terminated: bool) -> TokenKind {
    TokenKind::Literal(LiteralKind::Str {
        terminated,
        value: value.to_string(),
    })
}

fn identifier(name: &str) -> TokenKind {
    TokenKind::Identifier(name.to_string())
}

#[test]
fn single_character_tokens() {
    assert_eq!(
        kinds("(){},.-+;:?*"),
        vec![
            TokenKind::LeftParen,
            TokenKind::RightParen,
            TokenKind::LeftBrace,
            TokenKind::RightBrace,
            TokenKind::Comma,
            TokenKind::Dot,
            TokenKind::Minus,
            TokenKind::Plus,
            TokenKind::Semicolon,
            TokenKind::Colon,
            TokenKind::Interrogation,
            TokenKind::Star,
        ]
    );
    assert_eq!(
        spans("(){},.-+;:?*"),
        (0..12).map(|i| (i, 1)).collect::<Vec<_>>()
    );
}

#[test]
fn operators_of_one_and_two_characters() {
    assert_eq!(
        kinds("! != = == < <= > >="),
        vec![
            TokenKind::Bang,
            TokenKind::Whitespace,
            TokenKind::NotEquals,
            TokenKind::Whitespace,
            TokenKind::Assign,
            TokenKind::Whitespace,
            TokenKind::Equals,
            TokenKind::Whitespace,
            TokenKind::LessThan,
            TokenKind::Whitespace,
            TokenKind::LessThanEquals,
            TokenKind::Whitespace,
            TokenKind::GreaterThan,
            TokenKind::Whitespace,
            TokenKind::GreaterThanEquals,
        ]
    );
    assert_eq!(
        kinds("==="),
        vec![TokenKind::Equals, TokenKind::Assign]
    );
    assert_eq!(kinds("!"), vec![TokenKind::Bang]);
    assert_eq!(kinds("<"), vec![TokenKind::LessThan]);
    assert_eq!(kinds(">"), vec![TokenKind::GreaterThan]);
    assert_eq!(kinds("="), vec![TokenKind::Assign]);
}

#[test]
fn slash_is_division_or_starts_a_comment() {
    assert_eq!(
        kinds("1/2"),
        vec![number("1"), TokenKind::Slash, number("2")]
    );
    assert_eq!(kinds("/"), vec![TokenKind::Slash]);
    assert_eq!(kinds("// a comment"), vec![TokenKind::Comment]);
    assert_eq!(spans("// a comment"), vec![(0, 12)]);
    assert_eq!(
        kinds("1 // one\n2"),
        vec![
            number("1"),
            TokenKind::Whitespace,
            TokenKind::Comment,
            TokenKind::Whitespace,
            number("2"),
        ]
    );
    // The comment ends before the line feed.
    assert_eq!(
        spans("1 // one\n2"),
        vec![(0, 1), (1, 1), (2, 6), (8, 1), (9, 1)]
    );
}

#[test]
fn string_literals() {
    assert_eq!(kinds("\"abc\""), vec![string("abc", true)]);
    assert_eq!(spans("\"abc\""), vec![(0, 5)]);
    assert_eq!(kinds("\"\""), vec![string("", true)]);
    assert_eq!(kinds("\"abc"), vec![string("abc", false)]);
    assert_eq!(spans("\"abc"), vec![(0, 4)]);
    assert_eq!(kinds("\""), vec![string("", false)]);
    // No escapes: a backslash is a character like any other.
    assert_eq!(
        kinds("\"a\\\"b"),
        vec![string("a\\", true), identifier("b")]
    );
    assert_eq!(kinds("\"two\nlines\""), vec![string("two\nlines", true)]);
}

#[test]
fn number_literals() {
    assert_eq!(kinds("123"), vec![number("123")]);
    assert_eq!(kinds("3.5"), vec![number("3.5")]);
    assert_eq!(kinds("0.25"), vec![number("0.25")]);
    assert_eq!(spans("123.456"), vec![(0, 7)]);
    // A dot that no digit follows is not part of the number.
    assert_eq!(kinds("1."), vec![number("1"), TokenKind::Dot]);
    assert_eq!(
        kinds("1.x"),
        vec![number("1"), TokenKind::Dot, identifier("x")]
    );
    assert_eq!(
        kinds("1.2.3"),
        vec![number("1.2"), TokenKind::Dot, number("3")]
    );
    assert_eq!(kinds(".5"), vec![TokenKind::Dot, number("5")]);
    assert_eq!(kinds("1..2"), vec![number("1"), TokenKind::Dot, TokenKind::Dot, number("2")]);
}

#[test]
fn whitespace_is_grouped() {
    assert_eq!(kinds(" \t\r\n"), vec![TokenKind::Whitespace]);
    assert_eq!(spans(" \t\r\n"), vec![(0, 4)]);
    assert_eq!(
        kinds("\u{0085}\u{200E}\u{200F}\u{2028}\u{2029}\u{000B}\u{000C}"),
        vec![TokenKind::Whitespace]
    );
    // U+00A0 is no pattern whitespace.
    assert_eq!(kinds("\u{00A0}"), vec![TokenKind::Unknown]);
}

#[test]
fn every_reserved_word() {
    let words = [
        ("and", KeywordKind::And),
        ("class", KeywordKind::Class),
        ("else", KeywordKind::Else),
        ("false", KeywordKind::False),
        ("for", KeywordKind::For),
        ("fun", KeywordKind::Fun),
        ("if", KeywordKind::If),
        ("nil", KeywordKind::Nil),
        ("or", KeywordKind::Or),
        ("print", KeywordKind::Print),
        ("return", KeywordKind::Return),
        ("super", KeywordKind::Super),
        ("this", KeywordKind::This),
        ("true", KeywordKind::True),
        ("var", KeywordKind::Var),
        ("while", KeywordKind::While),
    ];
    for (word, kind) in words {
        assert_eq!(kinds(word), vec![TokenKind::Keyword(kind)]);
        assert_eq!(KeywordKind::try_from(word), Ok(kind));
    }
    assert_eq!(KeywordKind::try_from("And"), Err(()));
    assert_eq!(KeywordKind::try_from("andd"), Err(()));
    assert_eq!(KeywordKind::try_from(""), Err(()));
}

#[test]
fn identifiers() {
    assert_eq!(kinds("foo"), vec![identifier("foo")]);
    assert_eq!(kinds("_foo1"), vec![identifier("_foo1")]);
    assert_eq!(kinds("_"), vec![identifier("_")]);
    assert_eq!(kinds("True"), vec![identifier("True")]);
    assert_eq!(kinds("printer"), vec![identifier("printer")]);
    assert_eq!(kinds("été"), vec![identifier("été")]);
    assert_eq!(kinds("x1y2"), vec![identifier("x1y2")]);
    assert_eq!(
        kinds("a-b"),
        vec![identifier("a"), TokenKind::Minus, identifier("b")]
    );
}

#[test]
fn unknown_characters_are_tokens() {
    assert_eq!(kinds("@"), vec![TokenKind::Unknown]);
    assert_eq!(
        kinds("#$"),
        vec![TokenKind::Unknown, TokenKind::Unknown]
    );
    assert_eq!(kinds("△"), vec![TokenKind::Unknown]);
    assert_eq!(spans("△"), vec![(0, 3)]);
}

#[test]
fn offsets_and_lengths_are_in_bytes() {
    // é takes two bytes, △ three, 😀 four.
    assert_eq!(
        spans("\"é\" △ été 😀"),
        vec![(0, 4), (4, 1), (5, 3), (8, 1), (9, 5), (14, 1), (15, 4)]
    );
    assert_eq!(
        kinds("\"é\" △ été 😀"),
        vec![
            string("é", true),
            TokenKind::Whitespace,
            TokenKind::Unknown,
            TokenKind::Whitespace,
            identifier("été"),
            TokenKind::Whitespace,
            TokenKind::Unknown,
        ]
    );
}

#[test]
fn tokens_tile_the_source() {
    let code = "var x = (1.5 + \"two\") // note\n{ print x; } ą≠";
    let mut at = 0;
    for t in tokenize(code) {
        assert_eq!(t.index, at);
        assert!(t.len > 0);
        at += t.len;
    }
    assert_eq!(at, code.len());
}

#[test]
fn empty_source_has_no_tokens() {
    assert_eq!(tokenize(""), Vec::<Token>::new());
    assert_eq!(scan(""), Vec::<Token>::new());
}

#[test]
fn scan_drops_whitespace_and_comments() {
    let all = tokenize("print 1; // done\n");
    let kept = scan("print 1; // done\n");
    let expected: Vec<Token> = all
        .into_iter()
        .filter(|t| t.kind != TokenKind::Whitespace && t.kind != TokenKind::Comment)
        .collect();
    assert_eq!(kept, expected);
    assert_eq!(
        kept.iter().map(|t| (t.index, t.len)).collect::<Vec<_>>(),
        vec![(0, 5), (6, 1), (7, 1)]
    );
}

#[test]
fn next_token_at_the_end_is_end_of_input() {
    let chars: Vec<char> = "ab".chars().collect();
    let (token, next) = next_token(&chars, 2, 2);
    assert_eq!(
        token,
        Token {
            kind: TokenKind::Eof,
            index: 2,
            len: 0
        }
    );
    assert_eq!(next, 2);
    let (token, next) = next_token(&chars, 0, 0);
    assert_eq!(
        token,
        Token {
            kind: identifier("ab"),
            index: 0,
            len: 2
        }
    );
    assert_eq!(next, 2);
}

#[test]
fn consume_while_stops_at_the_first_outsider() {
    let chars: Vec<char> = "123ab".chars().collect();
    assert_eq!(
        consume_while(&chars, 0, CharClass::Digit),
        (3, true, "123".to_string())
    );
    assert_eq!(
        consume_while(&chars, 1, CharClass::Digit),
        (2, true, "23".to_string())
    );
    assert_eq!(
        consume_while(&chars, 3, CharClass::Digit),
        (0, true, String::new())
    );
    assert_eq!(
        consume_while(&chars, 3, CharClass::IdentContinue),
        (2, false, "ab".to_string())
    );
    assert_eq!(
        consume_while(&chars, 5, CharClass::NotQuote),
        (0, false, String::new())
    );
    assert_eq!(
        consume_while(&chars, 0, CharClass::NotNewline),
        (5, false, "123ab".to_string())
    );
}

#[test]
fn character_classes() {
    for c in '0'..='9' {
        assert!(is_digit(c));
    }
    assert!(!is_digit('/'));
    assert!(!is_digit(':'));
    assert!(!is_digit('a'));
    assert!(!is_digit('٣'));
    for c in ['\t', '\n', '\u{000B}', '\u{000C}', '\r', ' ', '\u{0085}', '\u{200E}', '\u{200F}', '\u{2028}', '\u{2029}'] {
        assert!(is_whitespace(c));
    }
    assert!(!is_whitespace('a'));
    assert!(!is_whitespace('\u{00A0}'));
    assert!(!is_whitespace('\u{2000}'));
    assert!(is_in_class(CharClass::NotNewline, 'a'));
    assert!(!is_in_class(CharClass::NotNewline, '\n'));
    assert!(is_in_class(CharClass::NotQuote, '\n'));
    assert!(!is_in_class(CharClass::NotQuote, '"'));
    assert!(is_in_class(CharClass::Whitespace, ' '));
    assert!(is_in_class(CharClass::Digit, '7'));
    assert!(is_in_class(CharClass::IdentContinue, '7'));
}

#[test]
fn identifier_characters() {
    assert!(is_ident_start('a'));
    assert!(is_ident_start('Z'));
    assert!(is_ident_start('_'));
    assert!(is_ident_start('é'));
    assert!(is_ident_start('λ'));
    assert!(!is_ident_start('1'));
    assert!(!is_ident_start(' '));
    assert!(!is_ident_start('-'));
    assert!(!is_ident_start('△'));
    assert!(is_ident_continue('a'));
    assert!(is_ident_continue('1'));
    assert!(is_ident_continue('_'));
    assert!(is_ident_continue('é'));
    assert!(!is_ident_continue('-'));
    assert!(!is_ident_continue(' '));
    assert!(!is_ident_continue('△'));
    // What holds of every ASCII character.
    for b in 0u8..0x80 {
        let c = b as char;
        assert_eq!(is_ident_start(c), c == '_' || c.is_ascii_alphabetic());
        assert_eq!(is_ident_continue(c), c == '_' || c.is_ascii_alphanumeric());
    }
}

#[test]
fn kinds_compare_by_what_they_carry() {
    assert!(TokenKind::Comma.same_as(&TokenKind::Comma));
    assert!(!TokenKind::Comma.same_as(&TokenKind::Dot));
    assert!(identifier("a").same_as(&identifier("a")));
    assert!(!identifier("a").same_as(&identifier("b")));
    assert!(number("1").same_as(&number("1")));
    assert!(!number("1").same_as(&number("1.0")));
    assert!(string("a", true).same_as(&string("a", true)));
    assert!(!string("a", true).same_as(&string("a", false)));
    assert!(!string("a", true).same_as(&number("a")));
    assert!(TokenKind::Keyword(KeywordKind::If).same_as(&TokenKind::Keyword(KeywordKind::If)));
    assert!(!TokenKind::Keyword(KeywordKind::If).same_as(&TokenKind::Keyword(KeywordKind::Or)));
}

#[test]
fn kinds_describe_themselves() {
    assert_eq!(TokenKind::LeftParen.describe(), "LeftParen");
    assert_eq!(TokenKind::Semicolon.describe(), "Semicolon");
    assert_eq!(TokenKind::Eof.describe(), "Eof");
    assert_eq!(identifier("foo").describe(), "Identifier(\"foo\")");
    assert_eq!(number("1.50").describe(), "Literal(Number(1.50))");
    assert_eq!(
        string("a\"b\n", true).describe(),
        "Literal(Str { terminated: true, value: \"a\\\"b\\n\" })"
    );
    assert_eq!(
        string("", false).describe(),
        "Literal(Str { terminated: false, value: \"\" })"
    );
    assert_eq!(
        TokenKind::Keyword(KeywordKind::While).describe(),
        "Keyword(While)"
    );
    for kind in kinds("( ) { } , . ; : ? - + / * ! = == != < > <= >= // c") {
        assert_eq!(kind.describe(), format!("{:?}", kind));
    }
}
