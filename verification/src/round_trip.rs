//! Literals keep their meaning from source text to value: a literal
//! lexeme, scanned, parsed and evaluated, comes to the value that it spells.

use vstd::prelude::*;

use crate::ast::{ExprView, LiteralView};
use crate::interpreter::{Scope, Value};
use crate::lexer::{
    all_digits, lemma_literal_keywords, lemma_scan_number, lemma_scan_string, lemma_scan_word,
    numeral, significant, tokens_from, KeywordKind, LiteralKindView, TokenKindView, TokenView,
};
use crate::parser::{
    lemma_lone_primary, literal_node, parse_expression, parsed, SyntaxErrorView,
};
use crate::semantics::{eval, gave, Arithmetic, Evaluated};
use crate::text::byte_len;

verus! {

/// The expression that a source text spells from its first token on, or
/// the syntax error in it.
pub open spec fn expression_of(source: Seq<char>) -> Result<ExprView, SyntaxErrorView> {
    parse_expression(significant(tokens_from(source, 0)), 0).result
}

/// What the expression that a source text spells comes to, when the text
/// spells one.
pub open spec fn value_of(source: Seq<char>, env: Seq<Scope>, n: Arithmetic) -> Option<Evaluated> {
    match expression_of(source) {
        Ok(e) => Some(eval(e, env, n)),
        Err(_) => None,
    }
}

/// One token that takes part in the syntax is all that is left of it when
/// whitespace and comments are dropped.
proof fn lemma_one_significant(token: TokenView)
    requires
        token.kind != TokenKindView::Whitespace,
        token.kind != TokenKindView::Comment,
    ensures
        significant(seq![token]) == seq![token],
{
    let toks = seq![token];
    assert(toks.drop_first() =~= Seq::<TokenView>::empty());
    assert(significant(toks.drop_first()) =~= Seq::<TokenView>::empty());
    assert(significant(toks) =~= toks);
}

/// A string literal comes to the text between its quotes.
pub proof fn lemma_string_round_trip(body: Seq<char>, env: Seq<Scope>, n: Arithmetic)
    requires
        forall|i: int| 0 <= i < body.len() ==> body[i] != '"',
    ensures
        value_of(seq!['"'] + body + seq!['"'], env, n) == Some(gave(Value::Str(body), env)),
{
    let source = seq!['"'] + body + seq!['"'];
    let token = TokenView {
        kind: TokenKindView::Literal(LiteralKindView::Str { terminated: true, value: body }),
        index: 0,
        len: byte_len(source),
    };
    lemma_scan_string(body);
    lemma_one_significant(token);
    lemma_lone_primary(seq![token], literal_node(LiteralView::Str(body), token));
}

/// A number literal comes to the double that its numeral reads as.
pub proof fn lemma_number_round_trip(
    whole: Seq<char>,
    fraction: Option<Seq<char>>,
    env: Seq<Scope>,
    n: Arithmetic,
)
    requires
        whole.len() > 0,
        all_digits(whole),
        fraction matches Some(digits) ==> digits.len() > 0 && all_digits(digits),
    ensures
        value_of(numeral(whole, fraction), env, n) == Some(
            gave(Value::Number((n.read)(numeral(whole, fraction))), env),
        ),
{
    let source = numeral(whole, fraction);
    let token = TokenView {
        kind: TokenKindView::Literal(LiteralKindView::Number(source)),
        index: 0,
        len: byte_len(source),
    };
    lemma_scan_number(whole, fraction);
    lemma_one_significant(token);
    lemma_lone_primary(seq![token], literal_node(LiteralView::Number(source), token));
}

/// The literals `true`, `false` and `nil` come to the two booleans and to
/// nil.
pub proof fn lemma_keyword_round_trip(env: Seq<Scope>, n: Arithmetic)
    ensures
        value_of("true"@, env, n) == Some(gave(Value::Bool(true), env)),
        value_of("false"@, env, n) == Some(gave(Value::Bool(false), env)),
        value_of("nil"@, env, n) == Some(gave(Value::Nil, env)),
{
    lemma_literal_keywords();
    reveal_strlit("true");
    reveal_strlit("false");
    reveal_strlit("nil");
    lemma_scan_word("true"@);
    lemma_scan_word("false"@);
    lemma_scan_word("nil"@);
    let yes = TokenView {
        kind: TokenKindView::Keyword(KeywordKind::True),
        index: 0,
        len: byte_len("true"@),
    };
    let no = TokenView {
        kind: TokenKindView::Keyword(KeywordKind::False),
        index: 0,
        len: byte_len("false"@),
    };
    let nil = TokenView {
        kind: TokenKindView::Keyword(KeywordKind::Nil),
        index: 0,
        len: byte_len("nil"@),
    };
    lemma_one_significant(yes);
    lemma_one_significant(no);
    lemma_one_significant(nil);
    lemma_lone_primary(seq![yes], literal_node(LiteralView::True, yes));
    lemma_lone_primary(seq![no], literal_node(LiteralView::False, no));
    lemma_lone_primary(seq![nil], literal_node(LiteralView::Nil, nil));
}

} // verus!
