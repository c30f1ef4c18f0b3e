//! The scanner: source text to tokens. Each token carries its kind, the byte
//! offset at which its lexeme starts and the lexeme's length in bytes.

use vstd::prelude::*;

use crate::text::{
    byte_len, chars_of, debug_quoted, lemma_byte_len_is_encoded_len, lemma_byte_len_span,
    quote, span_bytes, str_equal, text_of,
};
use vstd::string::StringExecFns;

verus! {

/// The reserved words.
#[derive(Debug, PartialEq, Eq, Clone, Copy, Structural)]
pub enum KeywordKind {
    And,
    Class,
    Else,
    False,
    Fun,
    For,
    If,
    Nil,
    Or,
    Print,
    Return,
    Super,
    This,
    True,
    Var,
    While,
}

/// A literal lexeme. A number is kept as the text of its lexeme: digits,
/// optionally followed by a dot and more digits.
#[derive(Debug, PartialEq, Eq, Clone)]
pub enum LiteralKind {
    Str { terminated: bool, value: String },
    Number(String),
}

#[derive(Debug, PartialEq, Eq, Clone)]
pub enum TokenKind {
    // Single-char tokens
    LeftParen,
    RightParen,
    LeftBrace,
    RightBrace,
    Comma,
    Dot,
    Semicolon,
    Colon,
    Interrogation,
    Minus,
    Plus,
    Slash,
    Star,
    Bang,
    Assign,
    // Equality operators
    Equals,
    NotEquals,
    LessThan,
    GreaterThan,
    LessThanEquals,
    GreaterThanEquals,
    // Lexemes
    Comment,
    Identifier(String),
    Literal(LiteralKind),
    Keyword(KeywordKind),
    // Other
    Whitespace,
    Unknown,
    Eof,
}

/// A token holds no parsed data beyond what its kind carries: only the kind
/// and where the lexeme lies in the source.
#[derive(Debug, PartialEq, Eq, Clone)]
pub struct Token {
    pub kind: TokenKind,
    pub index: usize,
    pub len: usize,
}

/// What a `LiteralKind` stands for.
pub enum LiteralKindView {
    Str { terminated: bool, value: Seq<char> },
    Number(Seq<char>),
}

/// What a `TokenKind` stands for.
pub enum TokenKindView {
    LeftParen,
    RightParen,
    LeftBrace,
    RightBrace,
    Comma,
    Dot,
    Semicolon,
    Colon,
    Interrogation,
    Minus,
    Plus,
    Slash,
    Star,
    Bang,
    Assign,
    Equals,
    NotEquals,
    LessThan,
    GreaterThan,
    LessThanEquals,
    GreaterThanEquals,
    Comment,
    Identifier(Seq<char>),
    Literal(LiteralKindView),
    Keyword(KeywordKind),
    Whitespace,
    Unknown,
    Eof,
}

/// What a `Token` stands for.
pub struct TokenView {
    pub kind: TokenKindView,
    pub index: nat,
    pub len: nat,
}

impl View for LiteralKind {
    type V = LiteralKindView;

    open spec fn view(&self) -> LiteralKindView {
        match self {
            LiteralKind::Str { terminated, value } => LiteralKindView::Str {
                terminated: *terminated,
                value: value@,
            },
            LiteralKind::Number(text) => LiteralKindView::Number(text@),
        }
    }
}

impl View for TokenKind {
    type V = TokenKindView;

    open spec fn view(&self) -> TokenKindView {
        match self {
            TokenKind::LeftParen => TokenKindView::LeftParen,
            TokenKind::RightParen => TokenKindView::RightParen,
            TokenKind::LeftBrace => TokenKindView::LeftBrace,
            TokenKind::RightBrace => TokenKindView::RightBrace,
            TokenKind::Comma => TokenKindView::Comma,
            TokenKind::Dot => TokenKindView::Dot,
            TokenKind::Semicolon => TokenKindView::Semicolon,
            TokenKind::Colon => TokenKindView::Colon,
            TokenKind::Interrogation => TokenKindView::Interrogation,
            TokenKind::Minus => TokenKindView::Minus,
            TokenKind::Plus => TokenKindView::Plus,
            TokenKind::Slash => TokenKindView::Slash,
            TokenKind::Star => TokenKindView::Star,
            TokenKind::Bang => TokenKindView::Bang,
            TokenKind::Assign => TokenKindView::Assign,
            TokenKind::Equals => TokenKindView::Equals,
            TokenKind::NotEquals => TokenKindView::NotEquals,
            TokenKind::LessThan => TokenKindView::LessThan,
            TokenKind::GreaterThan => TokenKindView::GreaterThan,
            TokenKind::LessThanEquals => TokenKindView::LessThanEquals,
            TokenKind::GreaterThanEquals => TokenKindView::GreaterThanEquals,
            TokenKind::Comment => TokenKindView::Comment,
            TokenKind::Identifier(name) => TokenKindView::Identifier(name@),
            TokenKind::Literal(kind) => TokenKindView::Literal(kind@),
            TokenKind::Keyword(word) => TokenKindView::Keyword(*word),
            TokenKind::Whitespace => TokenKindView::Whitespace,
            TokenKind::Unknown => TokenKindView::Unknown,
            TokenKind::Eof => TokenKindView::Eof,
        }
    }
}

impl View for Token {
    type V = TokenView;

    open spec fn view(&self) -> TokenView {
        TokenView { kind: self.kind@, index: self.index as nat, len: self.len as nat }
    }
}

/// The views of a run of tokens, in order.
pub open spec fn token_views(tokens: Seq<Token>) -> Seq<TokenView> {
    tokens.map_values(|t: Token| t@)
}

impl Token {
    fn new(kind: TokenKind, index: usize, len: usize) -> (t: Token)
        ensures
            t.kind == kind,
            t.index == index,
            t.len == len,
    {
        Token { kind, index, len }
    }
}

/// The reserved word that `text` spells, if it spells one.
pub open spec fn keyword_of(text: Seq<char>) -> Option<KeywordKind> {
    if text == "and"@ {
        Some(KeywordKind::And)
    } else if text == "class"@ {
        Some(KeywordKind::Class)
    } else if text == "else"@ {
        Some(KeywordKind::Else)
    } else if text == "false"@ {
        Some(KeywordKind::False)
    } else if text == "for"@ {
        Some(KeywordKind::For)
    } else if text == "fun"@ {
        Some(KeywordKind::Fun)
    } else if text == "if"@ {
        Some(KeywordKind::If)
    } else if text == "nil"@ {
        Some(KeywordKind::Nil)
    } else if text == "or"@ {
        Some(KeywordKind::Or)
    } else if text == "print"@ {
        Some(KeywordKind::Print)
    } else if text == "return"@ {
        Some(KeywordKind::Return)
    } else if text == "super"@ {
        Some(KeywordKind::Super)
    } else if text == "this"@ {
        Some(KeywordKind::This)
    } else if text == "true"@ {
        Some(KeywordKind::True)
    } else if text == "var"@ {
        Some(KeywordKind::Var)
    } else if text == "while"@ {
        Some(KeywordKind::While)
    } else {
        None
    }
}

impl KeywordKind {
    /// The keyword that `value` spells, matched case-sensitively; an error
    /// when it spells none.
    pub fn try_from(value: &str) -> (r: Result<KeywordKind, ()>)
        ensures
            r == match keyword_of(value@) {
                Some(k) => Ok::<KeywordKind, ()>(k),
                None => Err::<KeywordKind, ()>(()),
            },
    {
        if str_equal(value, "and") {
            Ok(KeywordKind::And)
        } else if str_equal(value, "class") {
            Ok(KeywordKind::Class)
        } else if str_equal(value, "else") {
            Ok(KeywordKind::Else)
        } else if str_equal(value, "false") {
            Ok(KeywordKind::False)
        } else if str_equal(value, "for") {
            Ok(KeywordKind::For)
        } else if str_equal(value, "fun") {
            Ok(KeywordKind::Fun)
        } else if str_equal(value, "if") {
            Ok(KeywordKind::If)
        } else if str_equal(value, "nil") {
            Ok(KeywordKind::Nil)
        } else if str_equal(value, "or") {
            Ok(KeywordKind::Or)
        } else if str_equal(value, "print") {
            Ok(KeywordKind::Print)
        } else if str_equal(value, "return") {
            Ok(KeywordKind::Return)
        } else if str_equal(value, "super") {
            Ok(KeywordKind::Super)
        } else if str_equal(value, "this") {
            Ok(KeywordKind::This)
        } else if str_equal(value, "true") {
            Ok(KeywordKind::True)
        } else if str_equal(value, "var") {
            Ok(KeywordKind::Var)
        } else if str_equal(value, "while") {
            Ok(KeywordKind::While)
        } else {
            Err(())
        }
    }
}

/// Whether `c` is one of the decimal digits `0` to `9`.
pub open spec fn digit(c: char) -> bool {
    '0' <= c <= '9'
}

/// Whether `c` has the Unicode property Pattern_White_Space.
pub open spec fn whitespace(c: char) -> bool {
    ||| c == '\u{0009}'
    ||| c == '\u{000A}'
    ||| c == '\u{000B}'
    ||| c == '\u{000C}'
    ||| c == '\u{000D}'
    ||| c == '\u{0020}'
    ||| c == '\u{0085}'
    ||| c == '\u{200E}'
    ||| c == '\u{200F}'
    ||| c == '\u{2028}'
    ||| c == '\u{2029}'
}

/// Whether `c` is an ASCII letter.
pub open spec fn ascii_letter(c: char) -> bool {
    'a' <= c <= 'z' || 'A' <= c <= 'Z'
}

/// Whether `c` has the Unicode property XID_Start, as the crate
/// `unicode_xid` decides it.
pub uninterp spec fn xid_start(c: char) -> bool;

/// Whether `c` has the Unicode property XID_Continue, as the crate
/// `unicode_xid` decides it.
pub uninterp spec fn xid_continue(c: char) -> bool;

/// Whether `c` may start an identifier: XID_Start, or an underscore. Up to
/// U+007F the characters with XID_Start are the ASCII letters.
pub open spec fn ident_start(c: char) -> bool {
    c == '_' || if c <= '\u{7f}' {
        ascii_letter(c)
    } else {
        xid_start(c)
    }
}

/// Whether `c` may continue an identifier: XID_Continue. Up to U+007F the
/// characters with XID_Continue are the ASCII letters, the digits and the
/// underscore.
pub open spec fn ident_continue(c: char) -> bool {
    if c <= '\u{7f}' {
        ascii_letter(c) || digit(c) || c == '_'
    } else {
        xid_continue(c)
    }
}

/// Calls `unicode_xid::UnicodeXID::is_xid_start`. The result is the
/// property XID_Start of `c`; for a character up to U+007F the crate answers
/// from a fast path that accepts exactly the ASCII letters.
#[verifier::external_body]
fn has_xid_start(c: char) -> (r: bool)
    ensures
        r == xid_start(c),
        c <= '\u{7f}' ==> r == ascii_letter(c),
{
    unicode_xid::UnicodeXID::is_xid_start(c)
}

/// Calls `unicode_xid::UnicodeXID::is_xid_continue`. The result is the
/// property XID_Continue of `c`; for a character up to U+007F the crate
/// answers from a fast path that accepts exactly the ASCII letters, the
/// digits and the underscore.
#[verifier::external_body]
fn has_xid_continue(c: char) -> (r: bool)
    ensures
        r == xid_continue(c),
        c <= '\u{7f}' ==> r == (ascii_letter(c) || digit(c) || c == '_'),
{
    unicode_xid::UnicodeXID::is_xid_continue(c)
}

pub fn is_digit(c: char) -> (r: bool)
    ensures
        r == digit(c),
{
    c >= '0' && c <= '9'
}

/// True if `c` is whitespace: the Pattern_White_Space code points. The set
/// is stable across Unicode versions.
pub fn is_whitespace(c: char) -> (r: bool)
    ensures
        r == whitespace(c),
{
    c == '\u{0009}' || c == '\u{000A}' || c == '\u{000B}' || c == '\u{000C}' || c == '\u{000D}'
        || c == '\u{0020}' || c == '\u{0085}' || c == '\u{200E}' || c == '\u{200F}' || c
        == '\u{2028}' || c == '\u{2029}'
}

/// True if `c` is valid as a first character of an identifier.
pub fn is_ident_start(c: char) -> (r: bool)
    ensures
        r == ident_start(c),
{
    c == '_' || has_xid_start(c)
}

/// True if `c` is valid as a later character of an identifier.
pub fn is_ident_continue(c: char) -> (r: bool)
    ensures
        r == ident_continue(c),
{
    has_xid_continue(c)
}

/// The name of a reserved word's kind.
pub open spec fn keyword_name(word: KeywordKind) -> Seq<char> {
    match word {
        KeywordKind::And => "And"@,
        KeywordKind::Class => "Class"@,
        KeywordKind::Else => "Else"@,
        KeywordKind::False => "False"@,
        KeywordKind::Fun => "Fun"@,
        KeywordKind::For => "For"@,
        KeywordKind::If => "If"@,
        KeywordKind::Nil => "Nil"@,
        KeywordKind::Or => "Or"@,
        KeywordKind::Print => "Print"@,
        KeywordKind::Return => "Return"@,
        KeywordKind::Super => "Super"@,
        KeywordKind::This => "This"@,
        KeywordKind::True => "True"@,
        KeywordKind::Var => "Var"@,
        KeywordKind::While => "While"@,
    }
}

/// How a token kind is written in a message: the kind's name, followed in
/// parentheses by what it carries. Text is quoted as `{:?}` quotes it; a
/// number is written as its lexeme.
pub open spec fn describe(kind: TokenKindView) -> Seq<char> {
    match kind {
        TokenKindView::LeftParen => "LeftParen"@,
        TokenKindView::RightParen => "RightParen"@,
        TokenKindView::LeftBrace => "LeftBrace"@,
        TokenKindView::RightBrace => "RightBrace"@,
        TokenKindView::Comma => "Comma"@,
        TokenKindView::Dot => "Dot"@,
        TokenKindView::Semicolon => "Semicolon"@,
        TokenKindView::Colon => "Colon"@,
        TokenKindView::Interrogation => "Interrogation"@,
        TokenKindView::Minus => "Minus"@,
        TokenKindView::Plus => "Plus"@,
        TokenKindView::Slash => "Slash"@,
        TokenKindView::Star => "Star"@,
        TokenKindView::Bang => "Bang"@,
        TokenKindView::Assign => "Assign"@,
        TokenKindView::Equals => "Equals"@,
        TokenKindView::NotEquals => "NotEquals"@,
        TokenKindView::LessThan => "LessThan"@,
        TokenKindView::GreaterThan => "GreaterThan"@,
        TokenKindView::LessThanEquals => "LessThanEquals"@,
        TokenKindView::GreaterThanEquals => "GreaterThanEquals"@,
        TokenKindView::Comment => "Comment"@,
        TokenKindView::Identifier(name) => "Identifier("@ + debug_quoted(name) + ")"@,
        TokenKindView::Literal(LiteralKindView::Str { terminated, value }) => {
            "Literal(Str { terminated: "@ + (if terminated {
                "true"@
            } else {
                "false"@
            }) + ", value: "@ + debug_quoted(value) + " })"@
        },
        TokenKindView::Literal(LiteralKindView::Number(text)) => "Literal(Number("@ + text
            + "))"@,
        TokenKindView::Keyword(word) => "Keyword("@ + keyword_name(word) + ")"@,
        TokenKindView::Whitespace => "Whitespace"@,
        TokenKindView::Unknown => "Unknown"@,
        TokenKindView::Eof => "Eof"@,
    }
}

impl KeywordKind {
    /// The name of this kind.
    pub fn name(&self) -> (r: &'static str)
        ensures
            r@ == keyword_name(*self),
    {
        match self {
            KeywordKind::And => "And",
            KeywordKind::Class => "Class",
            KeywordKind::Else => "Else",
            KeywordKind::False => "False",
            KeywordKind::Fun => "Fun",
            KeywordKind::For => "For",
            KeywordKind::If => "If",
            KeywordKind::Nil => "Nil",
            KeywordKind::Or => "Or",
            KeywordKind::Print => "Print",
            KeywordKind::Return => "Return",
            KeywordKind::Super => "Super",
            KeywordKind::This => "This",
            KeywordKind::True => "True",
            KeywordKind::Var => "Var",
            KeywordKind::While => "While",
        }
    }
}

impl LiteralKind {
    /// Whether the two literals carry the same data.
    pub fn same_as(&self, other: &LiteralKind) -> (r: bool)
        ensures
            r == (self@ == other@),
    {
        match (self, other) {
            (
                LiteralKind::Str { terminated: t1, value: v1 },
                LiteralKind::Str { terminated: t2, value: v2 },
            ) => *t1 == *t2 && str_equal(v1.as_str(), v2.as_str()),
            (LiteralKind::Number(a), LiteralKind::Number(b)) => str_equal(a.as_str(), b.as_str()),
            _ => false,
        }
    }
}

impl TokenKind {
    /// Whether the two kinds are the same kind and carry the same data.
    pub fn same_as(&self, other: &TokenKind) -> (r: bool)
        ensures
            r == (self@ == other@),
    {
        match (self, other) {
            (TokenKind::LeftParen, TokenKind::LeftParen) => true,
            (TokenKind::RightParen, TokenKind::RightParen) => true,
            (TokenKind::LeftBrace, TokenKind::LeftBrace) => true,
            (TokenKind::RightBrace, TokenKind::RightBrace) => true,
            (TokenKind::Comma, TokenKind::Comma) => true,
            (TokenKind::Dot, TokenKind::Dot) => true,
            (TokenKind::Semicolon, TokenKind::Semicolon) => true,
            (TokenKind::Colon, TokenKind::Colon) => true,
            (TokenKind::Interrogation, TokenKind::Interrogation) => true,
            (TokenKind::Minus, TokenKind::Minus) => true,
            (TokenKind::Plus, TokenKind::Plus) => true,
            (TokenKind::Slash, TokenKind::Slash) => true,
            (TokenKind::Star, TokenKind::Star) => true,
            (TokenKind::Bang, TokenKind::Bang) => true,
            (TokenKind::Assign, TokenKind::Assign) => true,
            (TokenKind::Equals, TokenKind::Equals) => true,
            (TokenKind::NotEquals, TokenKind::NotEquals) => true,
            (TokenKind::LessThan, TokenKind::LessThan) => true,
            (TokenKind::GreaterThan, TokenKind::GreaterThan) => true,
            (TokenKind::LessThanEquals, TokenKind::LessThanEquals) => true,
            (TokenKind::GreaterThanEquals, TokenKind::GreaterThanEquals) => true,
            (TokenKind::Comment, TokenKind::Comment) => true,
            (TokenKind::Identifier(a), TokenKind::Identifier(b)) => str_equal(
                a.as_str(),
                b.as_str(),
            ),
            (TokenKind::Literal(a), TokenKind::Literal(b)) => a.same_as(b),
            (TokenKind::Keyword(a), TokenKind::Keyword(b)) => *a == *b,
            (TokenKind::Whitespace, TokenKind::Whitespace) => true,
            (TokenKind::Unknown, TokenKind::Unknown) => true,
            (TokenKind::Eof, TokenKind::Eof) => true,
            _ => false,
        }
    }

    /// How this kind is written in a message.
    pub fn describe(&self) -> (r: String)
        ensures
            r@ == describe(self@),
    {
        match self {
            TokenKind::LeftParen => String::from_str("LeftParen"),
            TokenKind::RightParen => String::from_str("RightParen"),
            TokenKind::LeftBrace => String::from_str("LeftBrace"),
            TokenKind::RightBrace => String::from_str("RightBrace"),
            TokenKind::Comma => String::from_str("Comma"),
            TokenKind::Dot => String::from_str("Dot"),
            TokenKind::Semicolon => String::from_str("Semicolon"),
            TokenKind::Colon => String::from_str("Colon"),
            TokenKind::Interrogation => String::from_str("Interrogation"),
            TokenKind::Minus => String::from_str("Minus"),
            TokenKind::Plus => String::from_str("Plus"),
            TokenKind::Slash => String::from_str("Slash"),
            TokenKind::Star => String::from_str("Star"),
            TokenKind::Bang => String::from_str("Bang"),
            TokenKind::Assign => String::from_str("Assign"),
            TokenKind::Equals => String::from_str("Equals"),
            TokenKind::NotEquals => String::from_str("NotEquals"),
            TokenKind::LessThan => String::from_str("LessThan"),
            TokenKind::GreaterThan => String::from_str("GreaterThan"),
            TokenKind::LessThanEquals => String::from_str("LessThanEquals"),
            TokenKind::GreaterThanEquals => String::from_str("GreaterThanEquals"),
            TokenKind::Comment => String::from_str("Comment"),
            TokenKind::Identifier(name) => {
                let mut r = String::from_str("Identifier(");
                let quoted = quote(name.as_str());
                r.append(quoted.as_str());
                r.append(")");
                r
            },
            TokenKind::Literal(LiteralKind::Str { terminated, value }) => {
                let mut r = String::from_str("Literal(Str { terminated: ");
                if *terminated {
                    r.append("true");
                } else {
                    r.append("false");
                }
                r.append(", value: ");
                let quoted = quote(value.as_str());
                r.append(quoted.as_str());
                r.append(" })");
                r
            },
            TokenKind::Literal(LiteralKind::Number(text)) => {
                let mut r = String::from_str("Literal(Number(");
                r.append(text.as_str());
                r.append("))");
                r
            },
            TokenKind::Keyword(word) => {
                let mut r = String::from_str("Keyword(");
                r.append(word.name());
                r.append(")");
                r
            },
            TokenKind::Whitespace => String::from_str("Whitespace"),
            TokenKind::Unknown => String::from_str("Unknown"),
            TokenKind::Eof => String::from_str("Eof"),
        }
    }
}

/// The sets of characters that a lexeme may run over.
#[derive(Debug, PartialEq, Eq, Clone, Copy, Structural)]
pub enum CharClass {
    /// The decimal digits.
    Digit,
    /// The whitespace code points.
    Whitespace,
    /// What may continue an identifier.
    IdentContinue,
    /// Everything but a line feed: the body of a line comment.
    NotNewline,
    /// Everything but a double quote: the body of a string literal.
    NotQuote,
}

/// Whether `c` belongs to `class`.
pub open spec fn in_class(class: CharClass, c: char) -> bool {
    match class {
        CharClass::Digit => digit(c),
        CharClass::Whitespace => whitespace(c),
        CharClass::IdentContinue => ident_continue(c),
        CharClass::NotNewline => c != '\u{000A}',
        CharClass::NotQuote => c != '"',
    }
}

/// Where the longest run of characters of `class` that starts at `from`
/// ends: the first position at or after `from` whose character is not in
/// `class`, or the end of `s`.
pub open spec fn run_end(s: Seq<char>, from: int, class: CharClass) -> int
    decreases s.len() - from,
{
    if 0 <= from < s.len() && in_class(class, s[from]) {
        run_end(s, from + 1, class)
    } else {
        from
    }
}

/// `run_end` is the one position that ends a run: everything before it is
/// in the class, and what stands at it, if anything, is not.
pub proof fn lemma_run_end(s: Seq<char>, from: int, class: CharClass, end: int)
    requires
        0 <= from <= end <= s.len(),
        forall|i: int| from <= i < end ==> in_class(class, #[trigger] s[i]),
        end < s.len() ==> !in_class(class, s[end]),
    ensures
        run_end(s, from, class) == end,
    decreases end - from,
{
    if from < end {
        lemma_run_end(s, from + 1, class, end);
    }
}

/// A run ends at or after its start and within the text.
pub proof fn lemma_run_end_bounds(s: Seq<char>, from: int, class: CharClass)
    requires
        0 <= from <= s.len(),
    ensures
        from <= run_end(s, from, class) <= s.len(),
        forall|i: int| from <= i < run_end(s, from, class) ==> in_class(class, #[trigger] s[i]),
        run_end(s, from, class) < s.len() ==> !in_class(class, s[run_end(s, from, class)]),
    decreases s.len() - from,
{
    if from < s.len() && in_class(class, s[from]) {
        lemma_run_end_bounds(s, from + 1, class);
    }
}

/// Whether `c` belongs to `class`.
pub fn is_in_class(class: CharClass, c: char) -> (r: bool)
    ensures
        r == in_class(class, c),
{
    match class {
        CharClass::Digit => is_digit(c),
        CharClass::Whitespace => is_whitespace(c),
        CharClass::IdentContinue => is_ident_continue(c),
        CharClass::NotNewline => c != '\u{000A}',
        CharClass::NotQuote => c != '"',
    }
}

/// Consumes characters from position `from` on while they belong to
/// `class`. Returns how many characters were consumed, whether the run was
/// ended by a character outside the class (rather than by the end of the
/// text), and the characters consumed.
pub fn consume_while(chars: &Vec<char>, from: usize, class: CharClass) -> (r: (
    usize,
    bool,
    String,
))
    requires
        from <= chars.len(),
    ensures
        from + r.0 == run_end(chars@, from as int, class),
        from + r.0 <= chars.len(),
        r.1 == (from + r.0 < chars.len()),
        r.2@ == chars@.subrange(from as int, from + r.0),
{
    let mut end: usize = from;
    let mut terminated = false;
    while end < chars.len()
        invariant_except_break
            !terminated,
        invariant
            from <= end <= chars.len(),
            forall|i: int| from <= i < end ==> in_class(class, #[trigger] chars@[i]),
        ensures
            terminated == (end < chars.len()),
            terminated ==> !in_class(class, chars@[end as int]),
        decreases chars.len() - end,
    {
        if is_in_class(class, chars[end]) {
            end += 1;
        } else {
            terminated = true;
            break ;
        }
    }
    proof {
        lemma_run_end(chars@, from as int, class, end as int);
    }
    let value = text_of(chars, from, end);
    (end - from, terminated, value)
}

/// The kind of the token that the single character `c` forms by itself, for
/// the characters that always stand alone.
pub open spec fn single_char_kind(c: char) -> Option<TokenKindView> {
    if c == '(' {
        Some(TokenKindView::LeftParen)
    } else if c == ')' {
        Some(TokenKindView::RightParen)
    } else if c == '{' {
        Some(TokenKindView::LeftBrace)
    } else if c == '}' {
        Some(TokenKindView::RightBrace)
    } else if c == ',' {
        Some(TokenKindView::Comma)
    } else if c == '.' {
        Some(TokenKindView::Dot)
    } else if c == '-' {
        Some(TokenKindView::Minus)
    } else if c == '+' {
        Some(TokenKindView::Plus)
    } else if c == ';' {
        Some(TokenKindView::Semicolon)
    } else if c == ':' {
        Some(TokenKindView::Colon)
    } else if c == '?' {
        Some(TokenKindView::Interrogation)
    } else if c == '*' {
        Some(TokenKindView::Star)
    } else {
        None
    }
}

/// Whether the character at `pos` is `c`.
pub open spec fn char_at_is(s: Seq<char>, pos: int, c: char) -> bool {
    0 <= pos < s.len() && s[pos] == c
}

/// Where the digits of a number that starts at `pos` end: a run of digits,
/// and then, only if a dot and at least one more digit follow, the dot and
/// the run of digits after it.
pub open spec fn number_end(s: Seq<char>, pos: int) -> int {
    let whole = run_end(s, pos + 1, CharClass::Digit);
    if char_at_is(s, whole, '.') && whole + 1 < s.len() && digit(s[whole + 1]) {
        run_end(s, whole + 1, CharClass::Digit)
    } else {
        whole
    }
}

/// Where the string literal whose opening quote stands at `pos` ends: after
/// the closing quote, or at the end of the text when there is none.
pub open spec fn string_end(s: Seq<char>, pos: int) -> int {
    let body = run_end(s, pos + 1, CharClass::NotQuote);
    if body < s.len() {
        body + 1
    } else {
        body
    }
}

/// The position just after the lexeme that starts at `pos`, for a position
/// inside the text. The rules apply in the order written.
pub open spec fn lexeme_end(s: Seq<char>, pos: int) -> int {
    let c = s[pos];
    if single_char_kind(c) is Some {
        pos + 1
    } else if c == '/' {
        if char_at_is(s, pos + 1, '/') {
            run_end(s, pos + 1, CharClass::NotNewline)
        } else {
            pos + 1
        }
    } else if c == '"' {
        string_end(s, pos)
    } else if c == '!' || c == '=' || c == '<' || c == '>' {
        if char_at_is(s, pos + 1, '=') {
            pos + 2
        } else {
            pos + 1
        }
    } else if digit(c) {
        number_end(s, pos)
    } else if whitespace(c) {
        run_end(s, pos + 1, CharClass::Whitespace)
    } else if ident_start(c) {
        run_end(s, pos + 1, CharClass::IdentContinue)
    } else {
        pos + 1
    }
}

/// The kind of the token whose lexeme starts at `pos`, for a position
/// inside the text. The rules apply in the order written.
pub open spec fn lexeme_kind(s: Seq<char>, pos: int) -> TokenKindView {
    let c = s[pos];
    let end = lexeme_end(s, pos);
    let followed_by_equals = char_at_is(s, pos + 1, '=');
    if single_char_kind(c) is Some {
        single_char_kind(c)->0
    } else if c == '/' {
        if char_at_is(s, pos + 1, '/') {
            TokenKindView::Comment
        } else {
            TokenKindView::Slash
        }
    } else if c == '"' {
        let body = run_end(s, pos + 1, CharClass::NotQuote);
        TokenKindView::Literal(
            LiteralKindView::Str { terminated: body < s.len(), value: s.subrange(pos + 1, body) },
        )
    } else if c == '!' {
        if followed_by_equals {
            TokenKindView::NotEquals
        } else {
            TokenKindView::Bang
        }
    } else if c == '=' {
        if followed_by_equals {
            TokenKindView::Equals
        } else {
            TokenKindView::Assign
        }
    } else if c == '<' {
        if followed_by_equals {
            TokenKindView::LessThanEquals
        } else {
            TokenKindView::LessThan
        }
    } else if c == '>' {
        if followed_by_equals {
            TokenKindView::GreaterThanEquals
        } else {
            TokenKindView::GreaterThan
        }
    } else if digit(c) {
        TokenKindView::Literal(LiteralKindView::Number(s.subrange(pos, end)))
    } else if whitespace(c) {
        TokenKindView::Whitespace
    } else if ident_start(c) {
        match keyword_of(s.subrange(pos, end)) {
            Some(word) => TokenKindView::Keyword(word),
            None => TokenKindView::Identifier(s.subrange(pos, end)),
        }
    } else {
        TokenKindView::Unknown
    }
}

/// The token that starts at character position `pos` of `s`: its kind, the
/// byte offset of `pos`, and the byte length of its lexeme. At the end of
/// the text it is the end-of-input token, of length zero.
pub open spec fn token_at(s: Seq<char>, pos: int) -> TokenView {
    if 0 <= pos < s.len() {
        TokenView {
            kind: lexeme_kind(s, pos),
            index: byte_len(s.take(pos)),
            len: byte_len(s.subrange(pos, lexeme_end(s, pos))),
        }
    } else {
        TokenView { kind: TokenKindView::Eof, index: byte_len(s), len: 0 }
    }
}

/// The tokens of `s` from character position `pos` on, up to and without
/// the end-of-input token.
pub open spec fn tokens_from(s: Seq<char>, pos: int) -> Seq<TokenView>
    decreases s.len() - pos,
{
    if 0 <= pos < lexeme_end(s, pos) <= s.len() {
        seq![token_at(s, pos)] + tokens_from(s, lexeme_end(s, pos))
    } else {
        Seq::empty()
    }
}

/// Every lexeme holds at least one character and ends within the text.
pub proof fn lemma_lexeme_end_bounds(s: Seq<char>, pos: int)
    requires
        0 <= pos < s.len(),
    ensures
        pos < lexeme_end(s, pos) <= s.len(),
{
    lemma_run_end_bounds(s, pos + 1, CharClass::NotNewline);
    lemma_run_end_bounds(s, pos + 1, CharClass::NotQuote);
    lemma_run_end_bounds(s, pos + 1, CharClass::Digit);
    lemma_run_end_bounds(s, pos + 1, CharClass::Whitespace);
    lemma_run_end_bounds(s, pos + 1, CharClass::IdentContinue);
    let whole = run_end(s, pos + 1, CharClass::Digit);
    if whole < s.len() {
        lemma_run_end_bounds(s, whole + 1, CharClass::Digit);
    }
}

/// The byte offset just past a token's lexeme.
pub open spec fn token_end(t: TokenView) -> nat {
    t.index + t.len
}

/// Whether the tokens lie in the source in the order given, without
/// overlap, and at offsets that a `usize` holds.
pub open spec fn spans_ordered(toks: Seq<TokenView>) -> bool {
    &&& forall|i: int| 0 <= i < toks.len() ==> token_end(#[trigger] toks[i]) <= usize::MAX
    &&& forall|i: int, j: int|
        0 <= i < j < toks.len() ==> token_end(#[trigger] toks[i]) <= (#[trigger] toks[j]).index
}

/// Whether the tokens lie end to end from byte offset `from` to byte
/// offset `to`, each of them at least one byte long.
pub open spec fn tiles(toks: Seq<TokenView>, from: nat, to: nat) -> bool
    decreases toks.len(),
{
    if toks.len() == 0 {
        from == to
    } else {
        &&& toks[0].index == from
        &&& toks[0].len >= 1
        &&& tiles(toks.drop_first(), from + toks[0].len, to)
    }
}

/// The tokens of a text lie end to end and cover the text: each token
/// starts where the one before it ends, the first at the start of the text
/// and the last up to its end, and no token is empty.
pub proof fn lemma_tokens_tile(s: Seq<char>, pos: int)
    requires
        0 <= pos <= s.len(),
    ensures
        tiles(tokens_from(s, pos), byte_len(s.take(pos)), byte_len(s)),
    decreases s.len() - pos,
{
    if pos < s.len() {
        lemma_lexeme_end_bounds(s, pos);
        let end = lexeme_end(s, pos);
        lemma_tokens_tile(s, end);
        lemma_byte_len_span(s, pos, end);
        crate::text::lemma_byte_len_monotonic(s, pos, end);
        let toks = tokens_from(s, pos);
        assert(toks.drop_first() =~= tokens_from(s, end));
    } else {
        assert(s.take(pos) =~= s);
    }
}

/// A text that is one lexeme from its start to its end is one token.
pub proof fn lemma_one_lexeme(s: Seq<char>)
    requires
        s.len() > 0,
        lexeme_end(s, 0) == s.len(),
    ensures
        tokens_from(s, 0) == seq![
            TokenView { kind: lexeme_kind(s, 0), index: 0, len: byte_len(s) },
        ],
{
    assert(s.take(0) =~= Seq::<char>::empty());
    assert(s.subrange(0, s.len() as int) =~= s);
    assert(tokens_from(s, s.len() as int) =~= Seq::<TokenView>::empty());
    assert(tokens_from(s, 0) =~= seq![token_at(s, 0)]);
}

/// A text between double quotes, itself without a double quote, scans as
/// one terminated string literal whose value is that text.
pub proof fn lemma_scan_string(body: Seq<char>)
    requires
        forall|i: int| 0 <= i < body.len() ==> body[i] != '"',
    ensures
        tokens_from(seq!['"'] + body + seq!['"'], 0) == seq![
            TokenView {
                kind: TokenKindView::Literal(
                    LiteralKindView::Str { terminated: true, value: body },
                ),
                index: 0,
                len: byte_len(seq!['"'] + body + seq!['"']),
            },
        ],
{
    let s = seq!['"'] + body + seq!['"'];
    let end = body.len() as int + 1;
    assert(s[0] == '"');
    assert(s[end] == '"');
    assert forall|i: int| 1 <= i < end implies in_class(CharClass::NotQuote, #[trigger] s[i]) by {
        assert(s[i] == body[i - 1]);
    }
    lemma_run_end(s, 1, CharClass::NotQuote, end);
    assert(s.subrange(1, end) =~= body);
    lemma_one_lexeme(s);
}

/// Whether every character of `s` is a decimal digit.
pub open spec fn all_digits(s: Seq<char>) -> bool {
    forall|i: int| 0 <= i < s.len() ==> digit(#[trigger] s[i])
}

/// The numeral with the digits `whole` before the dot and, if there is a
/// dot, the digits `fraction` after it.
pub open spec fn numeral(whole: Seq<char>, fraction: Option<Seq<char>>) -> Seq<char> {
    match fraction {
        Some(digits) => whole + seq!['.'] + digits,
        None => whole,
    }
}

/// A numeral, one or more digits and then perhaps a dot and one or more
/// digits, scans as one number literal that carries the numeral.
pub proof fn lemma_scan_number(whole: Seq<char>, fraction: Option<Seq<char>>)
    requires
        whole.len() > 0,
        all_digits(whole),
        fraction matches Some(digits) ==> digits.len() > 0 && all_digits(digits),
    ensures
        tokens_from(numeral(whole, fraction), 0) == seq![
            TokenView {
                kind: TokenKindView::Literal(
                    LiteralKindView::Number(numeral(whole, fraction)),
                ),
                index: 0,
                len: byte_len(numeral(whole, fraction)),
            },
        ],
{
    let s = numeral(whole, fraction);
    let dot = whole.len() as int;
    assert(s[0] == whole[0]);
    assert(digit(s[0]));
    assert forall|i: int| 1 <= i < dot implies in_class(CharClass::Digit, #[trigger] s[i]) by {
        assert(s[i] == whole[i]);
    }
    match fraction {
        Some(digits) => {
            assert(s[dot] == '.');
            lemma_run_end(s, 1, CharClass::Digit, dot);
            assert(s[dot + 1] == digits[0]);
            assert forall|i: int| dot + 1 <= i < s.len() implies in_class(
                CharClass::Digit,
                #[trigger] s[i],
            ) by {
                assert(s[i] == digits[i - dot - 1]);
            }
            lemma_run_end(s, dot + 1, CharClass::Digit, s.len() as int);
        },
        None => {
            lemma_run_end(s, 1, CharClass::Digit, dot);
        },
    }
    assert(s.subrange(0, s.len() as int) =~= s);
    lemma_one_lexeme(s);
}

/// The words `true`, `false` and `nil` are reserved words.
pub proof fn lemma_literal_keywords()
    ensures
        keyword_of("true"@) == Some(KeywordKind::True),
        keyword_of("false"@) == Some(KeywordKind::False),
        keyword_of("nil"@) == Some(KeywordKind::Nil),
{
    reveal_strlit("and");
    reveal_strlit("class");
    reveal_strlit("else");
    reveal_strlit("false");
    reveal_strlit("for");
    reveal_strlit("fun");
    reveal_strlit("if");
    reveal_strlit("nil");
    reveal_strlit("or");
    reveal_strlit("print");
    reveal_strlit("return");
    reveal_strlit("super");
    reveal_strlit("this");
    reveal_strlit("true");
    assert("true"@[0] != "else"@[0]);
    assert("true"@[1] != "this"@[1]);
    assert("false"@[0] != "class"@[0]);
    assert("nil"@[0] != "and"@[0]);
    assert("nil"@[0] != "for"@[0]);
    assert("nil"@[0] != "fun"@[0]);
}

/// A word of ASCII letters scans as one token: the reserved word that it
/// spells, or else an identifier.
pub proof fn lemma_scan_word(word: Seq<char>)
    requires
        word.len() > 0,
        forall|i: int| 0 <= i < word.len() ==> ascii_letter(#[trigger] word[i]),
    ensures
        tokens_from(word, 0) == seq![
            TokenView {
                kind: match keyword_of(word) {
                    Some(k) => TokenKindView::Keyword(k),
                    None => TokenKindView::Identifier(word),
                },
                index: 0,
                len: byte_len(word),
            },
        ],
{
    assert(ascii_letter(word[0]));
    assert forall|i: int| 1 <= i < word.len() implies in_class(
        CharClass::IdentContinue,
        #[trigger] word[i],
    ) by {
        assert(ascii_letter(word[i]));
    }
    lemma_run_end(word, 1, CharClass::IdentContinue, word.len() as int);
    assert(word.subrange(0, word.len() as int) =~= word);
    lemma_one_lexeme(word);
}

/// Whether a token of this kind takes part in the syntax: every kind but
/// whitespace and comments.
pub open spec fn is_significant(kind: TokenKindView) -> bool {
    kind != TokenKindView::Whitespace && kind != TokenKindView::Comment
}

/// The tokens of `toks` that take part in the syntax, in order.
pub open spec fn significant(toks: Seq<TokenView>) -> Seq<TokenView>
    decreases toks.len(),
{
    if toks.len() == 0 {
        Seq::empty()
    } else if is_significant(toks[0].kind) {
        seq![toks[0]] + significant(toks.drop_first())
    } else {
        significant(toks.drop_first())
    }
}

/// Scans the token that starts at character position `pos`, which lies at
/// byte offset `index`. Returns the token and the position after its lexeme.
pub fn next_token(chars: &Vec<char>, pos: usize, index: usize) -> (r: (Token, usize))
    requires
        pos <= chars.len(),
        index == byte_len(chars@.take(pos as int)),
        byte_len(chars@) <= usize::MAX,
    ensures
        r.0@ == token_at(chars@, pos as int),
        pos < chars.len() ==> r.1 == lexeme_end(chars@, pos as int),
        pos >= chars.len() ==> r.1 == pos,
        pos <= r.1 <= chars.len(),
{
    if pos >= chars.len() {
        proof {
            assert(chars@.take(pos as int) =~= chars@);
        }
        return (Token::new(TokenKind::Eof, index, 0), pos);
    }
    proof {
        lemma_lexeme_end_bounds(chars@, pos as int);
    }
    let c = chars[pos];
    let next: usize = pos + 1;
    let followed_by_equals = next < chars.len() && chars[next] == '=';
    let mut end: usize = next;
    let kind = if c == '(' {
        TokenKind::LeftParen
    } else if c == ')' {
        TokenKind::RightParen
    } else if c == '{' {
        TokenKind::LeftBrace
    } else if c == '}' {
        TokenKind::RightBrace
    } else if c == ',' {
        TokenKind::Comma
    } else if c == '.' {
        TokenKind::Dot
    } else if c == '-' {
        TokenKind::Minus
    } else if c == '+' {
        TokenKind::Plus
    } else if c == ';' {
        TokenKind::Semicolon
    } else if c == ':' {
        TokenKind::Colon
    } else if c == '?' {
        TokenKind::Interrogation
    } else if c == '*' {
        TokenKind::Star
    } else if c == '/' {
        if next < chars.len() && chars[next] == '/' {
            let (n, _, _) = consume_while(chars, next, CharClass::NotNewline);
            end = next + n;
            TokenKind::Comment
        } else {
            TokenKind::Slash
        }
    } else if c == '"' {
        let (n, terminated, value) = consume_while(chars, next, CharClass::NotQuote);
        end = next + n;
        // The run stops before the closing quote, which belongs to the lexeme.
        if terminated {
            end += 1;
        }
        TokenKind::Literal(LiteralKind::Str { terminated, value })
    } else if c == '!' {
        if followed_by_equals {
            end += 1;
            TokenKind::NotEquals
        } else {
            TokenKind::Bang
        }
    } else if c == '=' {
        if followed_by_equals {
            end += 1;
            TokenKind::Equals
        } else {
            TokenKind::Assign
        }
    } else if c == '<' {
        if followed_by_equals {
            end += 1;
            TokenKind::LessThanEquals
        } else {
            TokenKind::LessThan
        }
    } else if c == '>' {
        if followed_by_equals {
            end += 1;
            TokenKind::GreaterThanEquals
        } else {
            TokenKind::GreaterThan
        }
    } else if is_digit(c) {
        let (n, _, _) = consume_while(chars, next, CharClass::Digit);
        end = next + n;
        // A dot belongs to the number only if a digit follows it.
        if end < chars.len() && chars[end] == '.' && end + 1 < chars.len() && is_digit(
            chars[end + 1],
        ) {
            let (m, _, _) = consume_while(chars, end + 1, CharClass::Digit);
            end = end + 1 + m;
        }
        TokenKind::Literal(LiteralKind::Number(text_of(chars, pos, end)))
    } else if is_whitespace(c) {
        let (n, _, _) = consume_while(chars, next, CharClass::Whitespace);
        end = next + n;
        TokenKind::Whitespace
    } else if is_ident_start(c) {
        let (n, _, _) = consume_while(chars, next, CharClass::IdentContinue);
        end = next + n;
        let text = text_of(chars, pos, end);
        match KeywordKind::try_from(text.as_str()) {
            Ok(word) => TokenKind::Keyword(word),
            Err(_) => TokenKind::Identifier(text),
        }
    } else {
        TokenKind::Unknown
    };
    assert(end == lexeme_end(chars@, pos as int));
    assert(kind@ == lexeme_kind(chars@, pos as int));
    let len = span_bytes(chars, pos, end);
    (Token::new(kind, index, len), end)
}

/// The tokens of `toks` that are wanted: all of them, or those that take
/// part in the syntax.
spec fn wanted(all: bool, toks: Seq<TokenView>) -> Seq<TokenView> {
    if all {
        toks
    } else {
        significant(toks)
    }
}

/// Scans `code` from its start to its end and collects the tokens that are
/// wanted.
fn collect(code: &str, all: bool) -> (tokens: Vec<Token>)
    ensures
        token_views(tokens@) == wanted(all, tokens_from(code@, 0)),
        spans_ordered(token_views(tokens@)),
{
    let chars = chars_of(code);
    // The length in bytes of a `str` fits a `usize`.
    let bytes = code.as_bytes();
    let _ = bytes.len();
    proof {
        lemma_byte_len_is_encoded_len(code@);
        assert(chars@.take(0) =~= Seq::<char>::empty());
    }
    let mut tokens: Vec<Token> = Vec::new();
    let mut pos: usize = 0;
    let mut index: usize = 0;
    while pos < chars.len()
        invariant
            pos <= chars.len(),
            chars@ == code@,
            byte_len(chars@) <= usize::MAX,
            index == byte_len(chars@.take(pos as int)),
            token_views(tokens@) + wanted(all, tokens_from(chars@, pos as int)) == wanted(
                all,
                tokens_from(chars@, 0),
            ),
            spans_ordered(token_views(tokens@)),
            forall|i: int|
                0 <= i < tokens.len() ==> token_end(#[trigger] token_views(tokens@)[i]) <= index,
        decreases chars.len() - pos,
    {
        let (token, next) = next_token(&chars, pos, index);
        let keep = all || !matches!(token.kind, TokenKind::Whitespace | TokenKind::Comment);
        proof {
            lemma_lexeme_end_bounds(chars@, pos as int);
            lemma_byte_len_span(chars@, pos as int, next as int);
            let rest = tokens_from(chars@, pos as int);
            assert(rest.drop_first() =~= tokens_from(chars@, next as int));
            assert(rest[0] == token@);
            assert(keep == (all || is_significant(token@.kind)));
            if keep {
                assert(token_views(tokens@.push(token)) =~= token_views(tokens@).push(token@));
                assert(token_views(tokens@).push(token@) + wanted(
                    all,
                    tokens_from(chars@, next as int),
                ) =~= token_views(tokens@) + wanted(all, rest));
            }
        }
        index += token.len;
        pos = next;
        if keep {
            tokens.push(token);
        }
    }
    proof {
        assert(token_views(tokens@) + wanted(all, tokens_from(chars@, pos as int))
            =~= token_views(tokens@));
    }
    tokens
}

/// The tokens of `code`, in order, up to the end of the input. Whitespace
/// and comments are tokens too. No character is fatal: one that starts no
/// lexeme becomes an unknown token.
pub fn tokenize(code: &str) -> (tokens: Vec<Token>)
    ensures
        token_views(tokens@) == tokens_from(code@, 0),
        spans_ordered(token_views(tokens@)),
{
    collect(code, true)
}

/// The tokens of `code` that take part in the syntax, in order: those of
/// `tokenize` without whitespace and comments.
pub fn scan(code: &str) -> (tokens: Vec<Token>)
    ensures
        token_views(tokens@) == significant(tokens_from(code@, 0)),
        spans_ordered(token_views(tokens@)),
{
    collect(code, false)
}

} // verus!
