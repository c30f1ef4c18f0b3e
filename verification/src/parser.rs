//! The parser: tokens to statements, by recursive descent. The first
//! malformed construct ends the parse with a syntax error; there is no
//! recovery.

use vstd::prelude::*;
use vstd::string::StringExecFns;

use crate::ast::{
    all_well_spanned, stmt_views, BinOp, Expr, ExprView, Literal, LiteralView, Stmt, StmtView,
    UnaryOp,
};
use crate::lexer::{
    describe, scan, significant, spans_ordered, token_end, token_views, tokens_from, KeywordKind,
    LiteralKind, LiteralKindView, Token, TokenKind, TokenKindView, TokenView,
};
use crate::text::{decimal, decimal_text};

verus! {

/// A syntax error: what went wrong, and the span of source it is about.
#[derive(Debug)]
pub struct LoxSyntaxError {
    message: String,
    index: usize,
    len: usize,
}

/// What a `LoxSyntaxError` stands for.
pub struct SyntaxErrorView {
    pub message: Seq<char>,
    pub index: nat,
    pub len: nat,
}

impl View for LoxSyntaxError {
    type V = SyntaxErrorView;

    closed spec fn view(&self) -> SyntaxErrorView {
        SyntaxErrorView { message: self.message@, index: self.index as nat, len: self.len as nat }
    }
}

impl LoxSyntaxError {
    pub fn new(message: String, index: usize, len: usize) -> (e: LoxSyntaxError)
        ensures
            e@ == (SyntaxErrorView { message: message@, index: index as nat, len: len as nat }),
    {
        LoxSyntaxError { message, index, len }
    }

    pub fn message(&self) -> (r: &str)
        ensures
            r@ == self@.message,
    {
        self.message.as_str()
    }

    pub fn index(&self) -> (r: usize)
        ensures
            r == self@.index,
    {
        self.index
    }

    pub fn len(&self) -> (r: usize)
        ensures
            r == self@.len,
    {
        self.len
    }

    /// The error as one line of text.
    pub fn to_string(&self) -> (r: String)
        ensures
            r@ == "Error: "@ + self@.message + " at "@ + decimal(self@.index) + " until "@
                + decimal(self@.len),
    {
        let mut r = String::from_str("Error: ");
        r.append(self.message.as_str());
        r.append(" at ");
        r.append(decimal_text(self.index).as_str());
        r.append(" until ");
        r.append(decimal_text(self.len).as_str());
        r
    }
}

/// The kind of the token at `pos`, if there is one.
pub open spec fn kind_at(toks: Seq<TokenView>, pos: int) -> Option<TokenKindView> {
    if 0 <= pos < toks.len() {
        Some(toks[pos].kind)
    } else {
        None
    }
}

/// Whether the token at `pos` exists and its kind is one of `kinds`.
pub open spec fn matches_any_kind(
    toks: Seq<TokenView>,
    pos: int,
    kinds: Seq<TokenKindView>,
) -> bool {
    0 <= pos < toks.len() && kinds.contains(toks[pos].kind)
}

/// The views of a run of token kinds, in order.
pub open spec fn kind_views(kinds: Seq<TokenKind>) -> Seq<TokenKindView> {
    kinds.map_values(|k: TokenKind| k@)
}

/// The tokens still to be parsed, with one token of lookahead and more.
pub struct TokenStream {
    tokens: Vec<Token>,
    pos: usize,
}

impl TokenStream {
    /// All the tokens of the stream, consumed or not.
    pub closed spec fn tokens(&self) -> Seq<TokenView> {
        token_views(self.tokens@)
    }

    /// How many tokens were consumed.
    pub closed spec fn position(&self) -> int {
        self.pos as int
    }

    /// No more tokens are consumed than there are.
    #[verifier::type_invariant]
    spec fn within(&self) -> bool {
        self.pos <= self.tokens@.len()
    }

    /// The tokens lie in source order, at offsets that a `usize` holds.
    pub open spec fn well_formed(&self) -> bool {
        spans_ordered(self.tokens())
    }

    /// The position lies within the stream. It always does.
    pub open spec fn in_bounds(&self) -> bool {
        0 <= self.position() <= self.tokens().len()
    }


    /// How many tokens are left.
    pub open spec fn remaining(&self) -> int {
        self.tokens().len() - self.position()
    }

    /// A stream over `tokens`, of which none is consumed yet.
    pub fn new(tokens: Vec<Token>) -> (s: TokenStream)
        ensures
            s.tokens() == token_views(tokens@),
            s.position() == 0,
    {
        TokenStream { tokens, pos: 0 }
    }

    /// The next token, which stays in the stream.
    pub fn peek(&self) -> (r: Option<&Token>)
        ensures
            match r {
                Some(t) => self.position() < self.tokens().len() && t@ == self.tokens()[self.position()],
                None => self.position() == self.tokens().len(),
            },
    {
        proof {
            use_type_invariant(self);
        }
        if self.pos < self.tokens.len() {
            Some(&self.tokens[self.pos])
        } else {
            None
        }
    }

    /// The token after the next one, which stays in the stream.
    pub fn peek_second(&self) -> (r: Option<&Token>)
        ensures
            match r {
                Some(t) => self.position() + 1 < self.tokens().len() && t@ == self.tokens()[
                    self.position() + 1],
                None => self.position() + 1 >= self.tokens().len(),
            },
    {
        proof {
            use_type_invariant(self);
        }
        if self.pos < self.tokens.len() && self.pos + 1 < self.tokens.len() {
            Some(&self.tokens[self.pos + 1])
        } else {
            None
        }
    }

    /// Consumes the next token.
    pub fn advance(&mut self)
        requires
            0 <= old(self).position() < old(self).tokens().len(),
        ensures
            final(self).tokens() == old(self).tokens(),
            final(self).position() == old(self).position() + 1,
    {
        proof {
            vstd::std_specs::vec::axiom_spec_len(&self.tokens);
            assert(self.tokens@.len() == token_views(self.tokens@).len());
        }
        self.pos += 1;
    }

    /// Whether every token was consumed.
    pub fn is_empty(&self) -> (r: bool)
        ensures
            r == (self.position() == self.tokens().len()),
    {
        proof {
            use_type_invariant(self);
        }
        self.pos >= self.tokens.len()
    }
}

/// Whether the next token's kind is one of `to_match`. Nothing is consumed.
pub fn matches_any(tokens: &TokenStream, to_match: Vec<TokenKind>) -> (r: bool)
    ensures
        r == matches_any_kind(tokens.tokens(), tokens.position(), kind_views(to_match@)),
{
    match tokens.peek() {
        None => false,
        Some(t) => {
            let mut i: usize = 0;
            while i < to_match.len()
                invariant
                    i <= to_match.len(),
                    0 <= tokens.position() < tokens.tokens().len(),
                    t@ == tokens.tokens()[tokens.position()],
                    forall|j: int| 0 <= j < i ==> to_match@[j]@ != t.kind@,
                decreases to_match.len() - i,
            {
                if t.kind.same_as(&to_match[i]) {
                    proof {
                        assert(kind_views(to_match@)[i as int] == t.kind@);
                    }
                    return true;
                }
                i += 1;
            }
            false
        },
    }
}

/// What parsing from a position gives: the tree or the error, and, on
/// success, the position after the last token that the tree took.
pub struct Parsed<T> {
    pub result: Result<T, SyntaxErrorView>,
    pub rest: int,
}

/// A successful parse.
pub open spec fn parsed<T>(value: T, rest: int) -> Parsed<T> {
    Parsed { result: Ok(value), rest }
}

/// A failed parse.
pub open spec fn failed<T>(message: Seq<char>, index: nat, len: nat) -> Parsed<T> {
    Parsed { result: Err(SyntaxErrorView { message, index, len }), rest: 0 }
}

/// The failure of an inner parse, handed on.
pub open spec fn handed_on<T>(error: SyntaxErrorView) -> Parsed<T> {
    Parsed { result: Err(error), rest: 0 }
}

/// Whether an inner parse that started at `pos` took at least one token
/// and stayed within the stream. Each successful parse does.
pub open spec fn moved_on(toks: Seq<TokenView>, pos: int, rest: int) -> bool {
    pos < rest <= toks.len()
}

/// The error of a parse that took no token. It never occurs: see
/// `lemma_expression_moves_on` and `lemma_statement_moves_on`.
pub open spec fn stalled<T>() -> Parsed<T> {
    failed(Seq::empty(), 0, 0)
}

/// The levels of left-associative binary operators, from the loosest to
/// the tightest.
#[derive(Debug, PartialEq, Eq, Clone, Copy, Structural)]
pub enum Level {
    Comma,
    Equality,
    Comparison,
    Term,
    Factor,
}

/// How tightly the operators of a level bind.
pub open spec fn level_rank(level: Level) -> nat {
    match level {
        Level::Comma => 1,
        Level::Equality => 2,
        Level::Comparison => 3,
        Level::Term => 4,
        Level::Factor => 5,
    }
}

/// The operator tokens of a level.
pub open spec fn level_kinds(level: Level) -> Seq<TokenKindView> {
    match level {
        Level::Comma => seq![TokenKindView::Comma],
        Level::Equality => seq![TokenKindView::NotEquals, TokenKindView::Equals],
        Level::Comparison => seq![
            TokenKindView::GreaterThan,
            TokenKindView::GreaterThanEquals,
            TokenKindView::LessThan,
            TokenKindView::LessThanEquals,
        ],
        Level::Term => seq![TokenKindView::Minus, TokenKindView::Plus],
        Level::Factor => seq![TokenKindView::Slash, TokenKindView::Star],
    }
}

/// The binary operator that a token kind writes, if it writes one.
pub open spec fn bin_op_of(kind: TokenKindView) -> Option<BinOp> {
    match kind {
        TokenKindView::Equals => Some(BinOp::Equals),
        TokenKindView::NotEquals => Some(BinOp::NotEquals),
        TokenKindView::GreaterThan => Some(BinOp::GreaterThan),
        TokenKindView::GreaterThanEquals => Some(BinOp::GreaterThanEquals),
        TokenKindView::LessThan => Some(BinOp::LessThan),
        TokenKindView::LessThanEquals => Some(BinOp::LessThanEquals),
        TokenKindView::Minus => Some(BinOp::Substraction),
        TokenKindView::Plus => Some(BinOp::Sum),
        TokenKindView::Star => Some(BinOp::Product),
        TokenKindView::Slash => Some(BinOp::Division),
        TokenKindView::Comma => Some(BinOp::Comma),
        _ => None,
    }
}

/// The unary operator that a token kind writes, if it writes one.
pub open spec fn unary_op_of(kind: TokenKindView) -> Option<UnaryOp> {
    match kind {
        TokenKindView::Minus => Some(UnaryOp::Negate),
        TokenKindView::Bang => Some(UnaryOp::LogicNegate),
        _ => None,
    }
}

/// The node of `left operator right`: it starts where `left` starts and
/// ends where `right` ends.
pub open spec fn binary_node(left: ExprView, operator: BinOp, right: ExprView) -> ExprView {
    ExprView::Binary {
        left: Box::new(left),
        operator,
        right: Box::new(right),
        index: left.index(),
        len: (right.end() - left.index()) as nat,
    }
}

/// The node of `condition ? left : right`: it starts where `condition`
/// starts and ends where `right` ends.
pub open spec fn ternary_node(condition: ExprView, left: ExprView, right: ExprView) -> ExprView {
    ExprView::Ternary {
        condition: Box::new(condition),
        left: Box::new(left),
        right: Box::new(right),
        index: condition.index(),
        len: (right.end() - condition.index()) as nat,
    }
}

/// The node of a unary operator, written by `token`, applied to `right`: it
/// starts at the operator and ends where `right` ends.
pub open spec fn unary_node(token: TokenView, operator: UnaryOp, right: ExprView) -> ExprView {
    ExprView::Unary {
        operator,
        right: Box::new(right),
        index: token.index,
        len: (right.end() - token.index) as nat,
    }
}

/// The node of a parenthesised expression. Its span is that of the
/// expression inside; the parentheses are not part of it.
pub open spec fn grouping_node(inner: ExprView) -> ExprView {
    ExprView::Grouping { expr: Box::new(inner), index: inner.index(), len: inner.len() }
}

/// The node of a literal written by `token`.
pub open spec fn literal_node(value: LiteralView, token: TokenView) -> ExprView {
    ExprView::Literal { value, index: token.index, len: token.len }
}

/// The node of an assignment to the variable that `token` names: it starts
/// at the name and ends where `value` ends.
pub open spec fn assign_node(token: TokenView, key: Seq<char>, value: ExprView) -> ExprView {
    ExprView::Assign {
        index: token.index,
        len: (value.end() - token.index) as nat,
        key,
        value: Box::new(value),
    }
}

/// The node of a binary expression starts where its left operand starts
/// and ends where its right operand ends.
pub proof fn lemma_binary_span(left: ExprView, operator: BinOp, right: ExprView)
    requires
        left.index() <= right.end(),
    ensures
        binary_node(left, operator, right).index() == left.index(),
        binary_node(left, operator, right).end() == right.end(),
        binary_node(left, operator, right).len() == right.index() + right.len() - left.index(),
{
}

/// The expression that a token is by itself: a literal or the name of a
/// variable, with the token's span. `None` for every other token.
pub open spec fn leaf_node(token: TokenView) -> Option<ExprView> {
    match token.kind {
        TokenKindView::Keyword(KeywordKind::True) => Some(literal_node(LiteralView::True, token)),
        TokenKindView::Keyword(KeywordKind::False) => Some(
            literal_node(LiteralView::False, token),
        ),
        TokenKindView::Keyword(KeywordKind::Nil) => Some(literal_node(LiteralView::Nil, token)),
        TokenKindView::Literal(LiteralKindView::Number(text)) => Some(
            literal_node(LiteralView::Number(text), token),
        ),
        TokenKindView::Literal(LiteralKindView::Str { value, .. }) => Some(
            literal_node(LiteralView::Str(value), token),
        ),
        TokenKindView::Identifier(name) => Some(
            ExprView::Variable { index: token.index, len: token.len, value: name },
        ),
        _ => None,
    }
}

/// `primary → NUMBER | STRING | "true" | "false" | "nil" | IDENTIFIER
///          | "(" expression ")"`
///
/// A token that starts no primary expression is an error at that token.
/// When the input ends where a primary expression has to start, there is
/// no token for the error to point at.
pub open spec fn parse_primary(toks: Seq<TokenView>, pos: int) -> Parsed<ExprView>
    decreases toks.len() - pos, 0nat,
{
    if !(0 <= pos < toks.len()) {
        failed("The expression is does not have a leaf node"@, 0, 0)
    } else {
        let token = toks[pos];
        match leaf_node(token) {
            Some(leaf) => parsed(leaf, pos + 1),
            None => if token.kind == TokenKindView::LeftParen {
                parse_grouping(toks, pos + 1)
            } else {
                failed(
                    "Token \""@ + describe(token.kind) + "\" does not match a valid expression"@,
                    token.index,
                    token.len,
                )
            },
        }
    }
}

/// What follows the opening parenthesis of a grouping: `expression ")"`.
/// When another token stands in place of the closing parenthesis, the
/// error is at that token; when the input ends there, the error has the
/// span of the expression.
pub open spec fn parse_grouping(toks: Seq<TokenView>, pos: int) -> Parsed<ExprView>
    decreases toks.len() - pos, 14nat,
{
    let inner = parse_expression(toks, pos);
    match inner.result {
        Err(error) => handed_on(error),
        Ok(expr) => match kind_at(toks, inner.rest) {
            Some(TokenKindView::RightParen) => parsed(grouping_node(expr), inner.rest + 1),
            Some(other) => failed(
                "The token "@ + describe(other) + " was not expected, a ')' was expected"@,
                toks[inner.rest].index,
                toks[inner.rest].len,
            ),
            None => failed("Expected ')' after grouped expression"@, expr.index(), expr.len()),
        },
    }
}

/// `unary → ("!" | "-") unary | primary`
pub open spec fn parse_unary(toks: Seq<TokenView>, pos: int) -> Parsed<ExprView>
    decreases toks.len() - pos, 1nat,
{
    if matches_any_kind(toks, pos, seq![TokenKindView::Bang, TokenKindView::Minus]) {
        let right = parse_unary(toks, pos + 1);
        match right.result {
            Err(error) => handed_on(error),
            Ok(expr) => parsed(
                unary_node(toks[pos], unary_op_of(toks[pos].kind)->0, expr),
                right.rest,
            ),
        }
    } else {
        parse_primary(toks, pos)
    }
}

/// An operand of a level's operators: an expression of the next tighter
/// level, and below the tightest level a unary expression.
pub open spec fn parse_operand(level: Level, toks: Seq<TokenView>, pos: int) -> Parsed<ExprView>
    decreases toks.len() - pos, 2 * (6 - level_rank(level)),
{
    match level {
        Level::Comma => parse_binary(Level::Equality, toks, pos),
        Level::Equality => parse_binary(Level::Comparison, toks, pos),
        Level::Comparison => parse_binary(Level::Term, toks, pos),
        Level::Term => parse_binary(Level::Factor, toks, pos),
        Level::Factor => parse_unary(toks, pos),
    }
}

/// One level of left-associative binary operators:
/// `operand ( operator operand )*`.
pub open spec fn parse_binary(level: Level, toks: Seq<TokenView>, pos: int) -> Parsed<ExprView>
    decreases toks.len() - pos, 2 * (6 - level_rank(level)) + 1,
{
    let first = parse_operand(level, toks, pos);
    match first.result {
        Err(error) => handed_on(error),
        Ok(left) => if moved_on(toks, pos, first.rest) {
            parse_binary_rest(level, toks, first.rest, left)
        } else {
            stalled()
        },
    }
}

/// The `( operator operand )*` of a level, with `left` standing for what
/// was parsed so far. Each round makes what was parsed so far the left
/// operand of a new node, so the operators associate to the left.
pub open spec fn parse_binary_rest(
    level: Level,
    toks: Seq<TokenView>,
    pos: int,
    left: ExprView,
) -> Parsed<ExprView>
    decreases toks.len() - pos, 2 * (6 - level_rank(level)) + 1,
{
    if matches_any_kind(toks, pos, level_kinds(level)) {
        let next = parse_operand(level, toks, pos + 1);
        match next.result {
            Err(error) => handed_on(error),
            Ok(right) => if moved_on(toks, pos, next.rest) {
                parse_binary_rest(
                    level,
                    toks,
                    next.rest,
                    binary_node(left, bin_op_of(toks[pos].kind)->0, right),
                )
            } else {
                stalled()
            },
        }
    } else {
        parsed(left, pos)
    }
}

/// `ternary → comma ( "?" ternary ":" ternary )?`
pub open spec fn parse_ternary(toks: Seq<TokenView>, pos: int) -> Parsed<ExprView>
    decreases toks.len() - pos, 12nat,
{
    let first = parse_binary(Level::Comma, toks, pos);
    match first.result {
        Err(error) => handed_on(error),
        Ok(condition) => if !moved_on(toks, pos, first.rest) {
            stalled()
        } else if kind_at(toks, first.rest) == Some(TokenKindView::Interrogation) {
            let second = parse_ternary(toks, first.rest + 1);
            match second.result {
                Err(error) => handed_on(error),
                Ok(left) => if !moved_on(toks, pos, second.rest) {
                    stalled()
                } else {
                    match kind_at(toks, second.rest) {
                        Some(TokenKindView::Colon) => {
                            let third = parse_ternary(toks, second.rest + 1);
                            match third.result {
                                Err(error) => handed_on(error),
                                Ok(right) => parsed(
                                    ternary_node(condition, left, right),
                                    third.rest,
                                ),
                            }
                        },
                        Some(_) => failed(
                            "Ternary operation missing one branch, expected colon instead"@,
                            toks[second.rest].index,
                            toks[second.rest].len,
                        ),
                        None => failed(
                            "Ternary operation missing one branch, expected colon"@,
                            left.index(),
                            left.len(),
                        ),
                    }
                },
            }
        } else {
            parsed(condition, first.rest)
        },
    }
}

/// `expression → IDENTIFIER "=" expression | ternary`
pub open spec fn parse_expression(toks: Seq<TokenView>, pos: int) -> Parsed<ExprView>
    decreases toks.len() - pos, 13nat,
{
    match (kind_at(toks, pos), kind_at(toks, pos + 1)) {
        (Some(TokenKindView::Identifier(name)), Some(TokenKindView::Assign)) => {
            let value = parse_expression(toks, pos + 2);
            match value.result {
                Err(error) => handed_on(error),
                Ok(expr) => parsed(assign_node(toks[pos], name, expr), value.rest),
            }
        },
        _ => parse_ternary(toks, pos),
    }
}

/// A primary expression that takes the one token there is, is the whole
/// expression at every level of the grammar.
pub proof fn lemma_lone_primary(toks: Seq<TokenView>, e: ExprView)
    requires
        toks.len() == 1,
        parse_primary(toks, 0) == parsed(e, 1),
        unary_op_of(toks[0].kind) is None,
    ensures
        parse_expression(toks, 0) == parsed(e, 1),
{
    assert(!seq![TokenKindView::Bang, TokenKindView::Minus].contains(toks[0].kind)) by {
        let kinds = seq![TokenKindView::Bang, TokenKindView::Minus];
        if kinds.contains(toks[0].kind) {
            let i = choose|i: int| 0 <= i < kinds.len() && kinds[i] == toks[0].kind;
            assert(i == 0 || i == 1);
        }
    }
    assert(parse_unary(toks, 0) == parsed(e, 1));
    lemma_lone_operand(Level::Factor, toks, e);
    lemma_lone_operand(Level::Term, toks, e);
    lemma_lone_operand(Level::Comparison, toks, e);
    lemma_lone_operand(Level::Equality, toks, e);
    lemma_lone_operand(Level::Comma, toks, e);
    assert(kind_at(toks, 1) is None);
    assert(parse_ternary(toks, 0) == parsed(e, 1));
}

/// An operand that takes the one token there is, is the whole expression
/// of its level: no operator follows it.
proof fn lemma_lone_operand(level: Level, toks: Seq<TokenView>, e: ExprView)
    requires
        toks.len() == 1,
        parse_operand(level, toks, 0) == parsed(e, 1),
    ensures
        parse_binary(level, toks, 0) == parsed(e, 1),
{
    assert(!matches_any_kind(toks, 1, level_kinds(level)));
    assert(parse_binary_rest(level, toks, 1, e) == parsed(e, 1));
}

/// `expression ";"`, as a statement built by `wrap`: a print statement's
/// operand or an expression statement. A missing semicolon is an error that
/// points just past the expression.
pub open spec fn parse_terminated(
    toks: Seq<TokenView>,
    pos: int,
    wrap: spec_fn(ExprView) -> StmtView,
) -> Parsed<StmtView> {
    let value = parse_expression(toks, pos);
    match value.result {
        Err(error) => handed_on(error),
        Ok(expr) => if kind_at(toks, value.rest) == Some(TokenKindView::Semicolon) {
            parsed(wrap(expr), value.rest + 1)
        } else {
            failed("Expected ';' after value."@, expr.end(), 0)
        },
    }
}

/// What follows the keyword `print`: `expression ";"`.
pub open spec fn parse_print_statement(toks: Seq<TokenView>, pos: int) -> Parsed<StmtView> {
    parse_terminated(toks, pos, |e: ExprView| StmtView::Print(e))
}

/// `expression ";"`
pub open spec fn parse_expression_statement(toks: Seq<TokenView>, pos: int) -> Parsed<
    StmtView,
> {
    parse_terminated(toks, pos, |e: ExprView| StmtView::Expression(e))
}

/// What follows the keyword `var`: `IDENTIFIER ( "=" expression )? ";"`.
/// A missing name is an error at the token found in its place; a missing
/// semicolon is an error that points just past the initializer, or just
/// past the name when there is none.
pub open spec fn parse_var_declaration(toks: Seq<TokenView>, pos: int) -> Parsed<StmtView> {
    match kind_at(toks, pos) {
        Some(TokenKindView::Identifier(name)) => match kind_at(toks, pos + 1) {
            Some(TokenKindView::Assign) => {
                let init = parse_expression(toks, pos + 2);
                match init.result {
                    Err(error) => handed_on(error),
                    Ok(expr) => if kind_at(toks, init.rest) == Some(TokenKindView::Semicolon) {
                        parsed(StmtView::Variable(name, Some(expr)), init.rest + 1)
                    } else {
                        failed("Expected ';' after variable declaration."@, expr.end(), 0)
                    },
                }
            },
            Some(TokenKindView::Semicolon) => parsed(StmtView::Variable(name, None), pos + 2),
            _ => failed("Expected ';' after variable declaration."@, token_end(toks[pos]), 0),
        },
        Some(_) => failed(
            "Expected a variable name after 'var'."@,
            toks[pos].index,
            toks[pos].len,
        ),
        None => failed("Expected a variable name after 'var'."@, 0, 0),
    }
}

/// `statement → "print" expression ";"
///            | "var" IDENTIFIER ( "=" expression )? ";"
///            | "{" statement* "}"
///            | expression ";"`
pub open spec fn parse_statement(toks: Seq<TokenView>, pos: int) -> Parsed<StmtView>
    decreases toks.len() - pos, 0nat,
{
    match kind_at(toks, pos) {
        Some(TokenKindView::Keyword(KeywordKind::Print)) => parse_print_statement(toks, pos + 1),
        Some(TokenKindView::Keyword(KeywordKind::Var)) => parse_var_declaration(toks, pos + 1),
        Some(TokenKindView::LeftBrace) => parse_block(toks, pos + 1, Seq::empty()),
        _ => parse_expression_statement(toks, pos),
    }
}

/// What follows the opening brace of a block and the statements `done` of
/// it: `statement* "}"`. A block that the input ends in is an error with no
/// token to point at.
pub open spec fn parse_block(toks: Seq<TokenView>, pos: int, done: Seq<StmtView>) -> Parsed<
    StmtView,
>
    decreases toks.len() - pos, 1nat,
{
    match kind_at(toks, pos) {
        None => failed("Expected '}' after block."@, 0, 0),
        Some(TokenKindView::RightBrace) => parsed(StmtView::Block(done), pos + 1),
        Some(_) => {
            let next = parse_statement(toks, pos);
            match next.result {
                Err(error) => handed_on(error),
                Ok(stmt) => if moved_on(toks, pos, next.rest) {
                    parse_block(toks, next.rest, done.push(stmt))
                } else {
                    stalled()
                },
            }
        },
    }
}

/// `statement*` up to the end of the tokens, after the statements `done`.
pub open spec fn parse_statements(toks: Seq<TokenView>, pos: int, done: Seq<StmtView>) -> Parsed<
    Seq<StmtView>,
>
    decreases toks.len() - pos, 1nat,
{
    if !(0 <= pos < toks.len()) {
        parsed(done, pos)
    } else {
        let next = parse_statement(toks, pos);
        match next.result {
            Err(error) => handed_on(error),
            Ok(stmt) => if moved_on(toks, pos, next.rest) {
                parse_statements(toks, next.rest, done.push(stmt))
            } else {
                stalled()
            },
        }
    }
}

/// `program → statement* EOF`: the statements that the tokens spell, or the
/// first syntax error.
pub open spec fn parse_program(toks: Seq<TokenView>) -> Result<Seq<StmtView>, SyntaxErrorView> {
    parse_statements(toks, 0, Seq::empty()).result
}

/// Whether a parse took at least one token and stayed within the stream,
/// if it succeeded.
pub open spec fn ok_moves_on<T>(toks: Seq<TokenView>, pos: int, p: Parsed<T>) -> bool {
    p.result is Ok ==> 0 <= pos && moved_on(toks, pos, p.rest)
}

/// A primary expression takes at least one token.
pub proof fn lemma_primary_moves_on(toks: Seq<TokenView>, pos: int)
    ensures
        ok_moves_on(toks, pos, parse_primary(toks, pos)),
    decreases toks.len() - pos, 0nat,
{
    if 0 <= pos < toks.len() && toks[pos].kind == TokenKindView::LeftParen {
        lemma_grouping_moves_on(toks, pos + 1);
    }
}

/// What follows the parenthesis of a grouping takes at least one token.
pub proof fn lemma_grouping_moves_on(toks: Seq<TokenView>, pos: int)
    ensures
        ok_moves_on(toks, pos, parse_grouping(toks, pos)),
    decreases toks.len() - pos, 14nat,
{
    lemma_expression_moves_on(toks, pos);
}

/// A unary expression takes at least one token.
pub proof fn lemma_unary_moves_on(toks: Seq<TokenView>, pos: int)
    ensures
        ok_moves_on(toks, pos, parse_unary(toks, pos)),
    decreases toks.len() - pos, 1nat,
{
    if matches_any_kind(toks, pos, seq![TokenKindView::Bang, TokenKindView::Minus]) {
        lemma_unary_moves_on(toks, pos + 1);
    } else {
        lemma_primary_moves_on(toks, pos);
    }
}

/// An operand takes at least one token.
pub proof fn lemma_operand_moves_on(level: Level, toks: Seq<TokenView>, pos: int)
    ensures
        ok_moves_on(toks, pos, parse_operand(level, toks, pos)),
    decreases toks.len() - pos, 2 * (6 - level_rank(level)),
{
    match level {
        Level::Comma => lemma_binary_moves_on(Level::Equality, toks, pos),
        Level::Equality => lemma_binary_moves_on(Level::Comparison, toks, pos),
        Level::Comparison => lemma_binary_moves_on(Level::Term, toks, pos),
        Level::Term => lemma_binary_moves_on(Level::Factor, toks, pos),
        Level::Factor => lemma_unary_moves_on(toks, pos),
    }
}

/// An expression of a level of binary operators takes at least one token.
pub proof fn lemma_binary_moves_on(level: Level, toks: Seq<TokenView>, pos: int)
    ensures
        ok_moves_on(toks, pos, parse_binary(level, toks, pos)),
    decreases toks.len() - pos, 2 * (6 - level_rank(level)) + 1,
{
    lemma_operand_moves_on(level, toks, pos);
    let first = parse_operand(level, toks, pos);
    if first.result is Ok {
        lemma_binary_rest_stays(level, toks, first.rest, first.result->Ok_0);
    }
}

/// The operators and operands that follow the first operand of a level
/// take tokens of the stream, or none.
pub proof fn lemma_binary_rest_stays(level: Level, toks: Seq<TokenView>, pos: int, left: ExprView)
    requires
        0 <= pos <= toks.len(),
    ensures
        parse_binary_rest(level, toks, pos, left).result is Ok ==> pos <= parse_binary_rest(
            level,
            toks,
            pos,
            left,
        ).rest <= toks.len(),
    decreases toks.len() - pos, 2 * (6 - level_rank(level)) + 1,
{
    if matches_any_kind(toks, pos, level_kinds(level)) {
        lemma_operand_moves_on(level, toks, pos + 1);
        let next = parse_operand(level, toks, pos + 1);
        if next.result is Ok {
            lemma_binary_rest_stays(
                level,
                toks,
                next.rest,
                binary_node(left, bin_op_of(toks[pos].kind)->0, next.result->Ok_0),
            );
        }
    }
}

/// A conditional takes at least one token.
pub proof fn lemma_ternary_moves_on(toks: Seq<TokenView>, pos: int)
    ensures
        ok_moves_on(toks, pos, parse_ternary(toks, pos)),
    decreases toks.len() - pos, 12nat,
{
    lemma_binary_moves_on(Level::Comma, toks, pos);
    let first = parse_binary(Level::Comma, toks, pos);
    if first.result is Ok && kind_at(toks, first.rest) == Some(TokenKindView::Interrogation) {
        lemma_ternary_moves_on(toks, first.rest + 1);
        let second = parse_ternary(toks, first.rest + 1);
        if second.result is Ok && kind_at(toks, second.rest) == Some(TokenKindView::Colon) {
            lemma_ternary_moves_on(toks, second.rest + 1);
        }
    }
}

/// An expression takes at least one token: no parse stalls.
pub proof fn lemma_expression_moves_on(toks: Seq<TokenView>, pos: int)
    ensures
        ok_moves_on(toks, pos, parse_expression(toks, pos)),
    decreases toks.len() - pos, 13nat,
{
    match (kind_at(toks, pos), kind_at(toks, pos + 1)) {
        (Some(TokenKindView::Identifier(name)), Some(TokenKindView::Assign)) => {
            lemma_expression_moves_on(toks, pos + 2);
        },
        _ => {
            lemma_ternary_moves_on(toks, pos);
        },
    }
}

/// A statement takes at least one token: no parse stalls.
pub proof fn lemma_statement_moves_on(toks: Seq<TokenView>, pos: int)
    ensures
        ok_moves_on(toks, pos, parse_statement(toks, pos)),
    decreases toks.len() - pos, 0nat,
{
    match kind_at(toks, pos) {
        Some(TokenKindView::Keyword(KeywordKind::Print)) => {
            lemma_expression_moves_on(toks, pos + 1);
        },
        Some(TokenKindView::Keyword(KeywordKind::Var)) => {
            lemma_expression_moves_on(toks, pos + 3);
        },
        Some(TokenKindView::LeftBrace) => {
            lemma_block_stays(toks, pos + 1, Seq::empty());
        },
        _ => {
            lemma_expression_moves_on(toks, pos);
        },
    }
}

/// What follows the brace of a block takes at least the closing brace.
pub proof fn lemma_block_stays(toks: Seq<TokenView>, pos: int, done: Seq<StmtView>)
    ensures
        ok_moves_on(toks, pos, parse_block(toks, pos, done)),
    decreases toks.len() - pos, 1nat,
{
    match kind_at(toks, pos) {
        None => {},
        Some(TokenKindView::RightBrace) => {},
        Some(_) => {
            lemma_statement_moves_on(toks, pos);
            let next = parse_statement(toks, pos);
            if next.result is Ok {
                lemma_block_stays(toks, next.rest, done.push(next.result->Ok_0));
            }
        },
    }
}

/// Whether the source text of `e` lies within that of the tokens from
/// `from` up to `to`, of which there is at least one.
pub open spec fn covers(toks: Seq<TokenView>, from: int, to: int, e: ExprView) -> bool {
    &&& 0 <= from < to <= toks.len()
    &&& toks[from].index <= e.index()
    &&& e.end() <= token_end(toks[to - 1])
}

/// The view of what an expression parser returns.
pub open spec fn expr_result(r: Result<Expr, LoxSyntaxError>) -> Result<
    ExprView,
    SyntaxErrorView,
> {
    match r {
        Ok(e) => Ok(e@),
        Err(error) => Err(error@),
    }
}

/// What each expression parser promises, given what the grammar says of
/// the tokens from the position at which it started (`expected`): it
/// returns what the grammar says, tree or error. On success it has
/// consumed the tokens of the tree and no others, at least one; the tree's
/// text lies within theirs; and every node of the tree spans its children.
/// The tokens themselves never change.
pub open spec fn parses_expr(
    before: TokenStream,
    after: TokenStream,
    r: Result<Expr, LoxSyntaxError>,
    expected: Parsed<ExprView>,
) -> bool {
    &&& after.tokens() == before.tokens()
    &&& after.in_bounds()
    &&& expr_result(r) == expected.result
    &&& r matches Ok(e) ==> {
        &&& after.position() == expected.rest
        &&& covers(before.tokens(), before.position(), after.position(), e@)
        &&& e@.well_spanned()
    }
}

impl BinOp {
    /// The binary operator that the token writes; an error that names the
    /// token's kind when it writes none.
    pub fn try_from(t: &Token) -> (r: Result<BinOp, String>)
        ensures
            match r {
                Ok(op) => bin_op_of(t@.kind) == Some(op),
                Err(message) => bin_op_of(t@.kind) is None && message@ == describe(t@.kind)
                    + " is not a valid binary operator"@,
            },
    {
        match &t.kind {
            TokenKind::Equals => Ok(BinOp::Equals),
            TokenKind::NotEquals => Ok(BinOp::NotEquals),
            TokenKind::GreaterThan => Ok(BinOp::GreaterThan),
            TokenKind::GreaterThanEquals => Ok(BinOp::GreaterThanEquals),
            TokenKind::LessThan => Ok(BinOp::LessThan),
            TokenKind::LessThanEquals => Ok(BinOp::LessThanEquals),
            TokenKind::Minus => Ok(BinOp::Substraction),
            TokenKind::Plus => Ok(BinOp::Sum),
            TokenKind::Star => Ok(BinOp::Product),
            TokenKind::Slash => Ok(BinOp::Division),
            TokenKind::Comma => Ok(BinOp::Comma),
            other => {
                let mut message = other.describe();
                message.append(" is not a valid binary operator");
                Err(message)
            },
        }
    }
}

impl UnaryOp {
    /// The unary operator that the token writes; an error that names the
    /// token's kind when it writes none.
    pub fn try_from(t: &Token) -> (r: Result<UnaryOp, String>)
        ensures
            match r {
                Ok(op) => unary_op_of(t@.kind) == Some(op),
                Err(message) => unary_op_of(t@.kind) is None && message@ == describe(t@.kind)
                    + " is not a valid unary operation"@,
            },
    {
        match &t.kind {
            TokenKind::Minus => Ok(UnaryOp::Negate),
            TokenKind::Bang => Ok(UnaryOp::LogicNegate),
            other => {
                let mut message = other.describe();
                message.append(" is not a valid unary operation");
                Err(message)
            },
        }
    }
}

/// The operator tokens of a level.
fn level_tokens(level: Level) -> (r: Vec<TokenKind>)
    ensures
        kind_views(r@) == level_kinds(level),
{
    let r = match level {
        Level::Comma => vec![TokenKind::Comma],
        Level::Equality => vec![TokenKind::NotEquals, TokenKind::Equals],
        Level::Comparison => vec![
            TokenKind::GreaterThan,
            TokenKind::GreaterThanEquals,
            TokenKind::LessThan,
            TokenKind::LessThanEquals,
        ],
        Level::Term => vec![TokenKind::Minus, TokenKind::Plus],
        Level::Factor => vec![TokenKind::Slash, TokenKind::Star],
    };
    proof {
        assert(kind_views(r@) =~= level_kinds(level));
    }
    r
}

/// The tokens that write a unary operator.
fn unary_tokens() -> (r: Vec<TokenKind>)
    ensures
        kind_views(r@) == seq![TokenKindView::Bang, TokenKindView::Minus],
{
    let r = vec![TokenKind::Bang, TokenKind::Minus];
    proof {
        assert(kind_views(r@) =~= seq![TokenKindView::Bang, TokenKindView::Minus]);
    }
    r
}

/// Parses an expression: an assignment to a name, or a conditional.
pub fn expression(tokens: &mut TokenStream) -> (r: Result<Expr, LoxSyntaxError>)
    requires
        old(tokens).well_formed(),
    ensures
        parses_expr(
            *old(tokens),
            *final(tokens),
            r,
            parse_expression(old(tokens).tokens(), old(tokens).position()),
        ),
    decreases old(tokens).remaining(), 19nat,
{
    proof {
        use_type_invariant(&*tokens);
    }
    let target = match tokens.peek() {
        Some(Token { kind: TokenKind::Identifier(name), index, .. }) => match tokens.peek_second() {
            Some(Token { kind: TokenKind::Assign, .. }) => Some((name.clone(), *index)),
            _ => None,
        },
        _ => None,
    };
    match target {
        Some((key, index)) => {
            tokens.advance();
            tokens.advance();
            match expression(tokens) {
                Err(error) => Err(error),
                Ok(value) => {
                    let len = value.index() + value.len() - index;
                    Ok(Expr::Assign { index, len, key, value: Box::new(value) })
                },
            }
        },
        None => ternary(tokens),
    }
}

/// Parses a conditional: a comma expression, and then perhaps `?`, a
/// branch, `:` and a branch. The branches are conditionals themselves.
pub fn ternary(tokens: &mut TokenStream) -> (r: Result<Expr, LoxSyntaxError>)
    requires
        old(tokens).well_formed(),
    ensures
        parses_expr(
            *old(tokens),
            *final(tokens),
            r,
            parse_ternary(old(tokens).tokens(), old(tokens).position()),
        ),
    decreases old(tokens).remaining(), 18nat,
{
    proof {
        use_type_invariant(&*tokens);
    }
    let condition = match comma(tokens) {
        Ok(e) => e,
        Err(error) => {
            return Err(error);
        },
    };
    let asked = match tokens.peek() {
        Some(t) => matches!(t.kind, TokenKind::Interrogation),
        None => false,
    };
    if !asked {
        return Ok(condition);
    }
    tokens.advance();
    let left = match ternary(tokens) {
        Ok(e) => e,
        Err(error) => {
            return Err(error);
        },
    };
    match tokens.peek() {
        Some(t) => {
            if matches!(t.kind, TokenKind::Colon) {
                tokens.advance();
                let right = match ternary(tokens) {
                    Ok(e) => e,
                    Err(error) => {
                        return Err(error);
                    },
                };
                let index = condition.index();
                let len = right.index() + right.len() - index;
                Ok(
                    Expr::Ternary {
                        condition: Box::new(condition),
                        left: Box::new(left),
                        right: Box::new(right),
                        index,
                        len,
                    },
                )
            } else {
                Err(
                    LoxSyntaxError::new(
                        String::from_str(
                            "Ternary operation missing one branch, expected colon instead",
                        ),
                        t.index,
                        t.len,
                    ),
                )
            }
        },
        None => Err(
            LoxSyntaxError::new(
                String::from_str("Ternary operation missing one branch, expected colon"),
                left.index(),
                left.len(),
            ),
        ),
    }
}

/// One level of left-associative binary operators.
pub fn binary(tokens: &mut TokenStream, level: Level) -> (r: Result<Expr, LoxSyntaxError>)
    requires
        old(tokens).well_formed(),
    ensures
        parses_expr(
            *old(tokens),
            *final(tokens),
            r,
            parse_binary(level, old(tokens).tokens(), old(tokens).position()),
        ),
    decreases old(tokens).remaining(), 3 * (6 - level_rank(level)) + 1,
{
    proof {
        use_type_invariant(&*tokens);
    }
    let ghost toks = tokens.tokens();
    let ghost start = tokens.position();
    let mut expr = match operand(tokens, level) {
        Ok(e) => e,
        Err(error) => {
            return Err(error);
        },
    };
    loop
        invariant
            tokens.tokens() == toks,
            toks == old(tokens).tokens(),
            start == old(tokens).position(),
            tokens.well_formed(),
            tokens.in_bounds(),
            covers(toks, start, tokens.position(), expr@),
            expr@.well_spanned(),
            parse_binary_rest(level, toks, tokens.position(), expr@) == parse_binary(
                level,
                toks,
                start,
            ),
        ensures
            tokens.tokens() == toks,
            tokens.well_formed(),
            tokens.in_bounds(),
            covers(toks, start, tokens.position(), expr@),
            expr@.well_spanned(),
            parse_binary(level, toks, start) == parsed(expr@, tokens.position()),
        decreases tokens.remaining(),
    {
        if !matches_any(tokens, level_tokens(level)) {
            break ;
        }
        let operator = match tokens.peek() {
            Some(t) => match BinOp::try_from(t) {
                Ok(op) => op,
                Err(_) => vstd::pervasive::unreached(),
            },
            None => vstd::pervasive::unreached(),
        };
        tokens.advance();
        let right = match operand(tokens, level) {
            Ok(e) => e,
            Err(error) => {
                return Err(error);
            },
        };
        let index = expr.index();
        let len = right.index() + right.len() - expr.index();
        expr = Expr::Binary { left: Box::new(expr), operator, right: Box::new(right), index, len };
    }
    Ok(expr)
}

/// An operand of a level's operators.
pub fn operand(tokens: &mut TokenStream, level: Level) -> (r: Result<Expr, LoxSyntaxError>)
    requires
        old(tokens).well_formed(),
    ensures
        parses_expr(
            *old(tokens),
            *final(tokens),
            r,
            parse_operand(level, old(tokens).tokens(), old(tokens).position()),
        ),
    decreases old(tokens).remaining(), 3 * (6 - level_rank(level)),
{
    proof {
        use_type_invariant(&*tokens);
    }
    match level {
        Level::Comma => equality(tokens),
        Level::Equality => comparison(tokens),
        Level::Comparison => term(tokens),
        Level::Term => factor(tokens),
        Level::Factor => unary(tokens),
    }
}

/// Parses equalities joined by `,`.
pub fn comma(tokens: &mut TokenStream) -> (r: Result<Expr, LoxSyntaxError>)
    requires
        old(tokens).well_formed(),
    ensures
        parses_expr(
            *old(tokens),
            *final(tokens),
            r,
            parse_binary(Level::Comma, old(tokens).tokens(), old(tokens).position()),
        ),
    decreases old(tokens).remaining(), 17nat,
{
    proof {
        use_type_invariant(&*tokens);
    }
    binary(tokens, Level::Comma)
}

/// Parses comparisons joined by `==` and `!=`.
pub fn equality(tokens: &mut TokenStream) -> (r: Result<Expr, LoxSyntaxError>)
    requires
        old(tokens).well_formed(),
    ensures
        parses_expr(
            *old(tokens),
            *final(tokens),
            r,
            parse_binary(Level::Equality, old(tokens).tokens(), old(tokens).position()),
        ),
    decreases old(tokens).remaining(), 14nat,
{
    proof {
        use_type_invariant(&*tokens);
    }
    binary(tokens, Level::Equality)
}

/// Parses terms joined by `>`, `>=`, `<` and `<=`.
pub fn comparison(tokens: &mut TokenStream) -> (r: Result<Expr, LoxSyntaxError>)
    requires
        old(tokens).well_formed(),
    ensures
        parses_expr(
            *old(tokens),
            *final(tokens),
            r,
            parse_binary(Level::Comparison, old(tokens).tokens(), old(tokens).position()),
        ),
    decreases old(tokens).remaining(), 11nat,
{
    proof {
        use_type_invariant(&*tokens);
    }
    binary(tokens, Level::Comparison)
}

/// Parses factors joined by `+` and `-`.
pub fn term(tokens: &mut TokenStream) -> (r: Result<Expr, LoxSyntaxError>)
    requires
        old(tokens).well_formed(),
    ensures
        parses_expr(
            *old(tokens),
            *final(tokens),
            r,
            parse_binary(Level::Term, old(tokens).tokens(), old(tokens).position()),
        ),
    decreases old(tokens).remaining(), 8nat,
{
    proof {
        use_type_invariant(&*tokens);
    }
    binary(tokens, Level::Term)
}

/// Parses unary expressions joined by `*` and `/`.
pub fn factor(tokens: &mut TokenStream) -> (r: Result<Expr, LoxSyntaxError>)
    requires
        old(tokens).well_formed(),
    ensures
        parses_expr(
            *old(tokens),
            *final(tokens),
            r,
            parse_binary(Level::Factor, old(tokens).tokens(), old(tokens).position()),
        ),
    decreases old(tokens).remaining(), 5nat,
{
    proof {
        use_type_invariant(&*tokens);
    }
    binary(tokens, Level::Factor)
}

/// Parses a unary expression: `!` or `-` and a unary expression, or a
/// primary expression.
pub fn unary(tokens: &mut TokenStream) -> (r: Result<Expr, LoxSyntaxError>)
    requires
        old(tokens).well_formed(),
    ensures
        parses_expr(
            *old(tokens),
            *final(tokens),
            r,
            parse_unary(old(tokens).tokens(), old(tokens).position()),
        ),
    decreases old(tokens).remaining(), 1nat,
{
    proof {
        use_type_invariant(&*tokens);
    }
    if matches_any(tokens, unary_tokens()) {
        let (operator, index) = match tokens.peek() {
            Some(t) => match UnaryOp::try_from(t) {
                Ok(op) => (op, t.index),
                Err(_) => vstd::pervasive::unreached(),
            },
            None => vstd::pervasive::unreached(),
        };
        tokens.advance();
        match unary(tokens) {
            Err(error) => Err(error),
            Ok(right) => {
                let len = right.index() + right.len() - index;
                Ok(Expr::Unary { operator, right: Box::new(right), index, len })
            },
        }
    } else {
        primary(tokens)
    }
}

/// Parses what follows the opening parenthesis of a grouping.
pub fn grouping(tokens: &mut TokenStream) -> (r: Result<Expr, LoxSyntaxError>)
    requires
        old(tokens).well_formed(),
    ensures
        old(tokens).tokens() == final(tokens).tokens(),
        final(tokens).in_bounds(),
        expr_result(r) == parse_grouping(old(tokens).tokens(), old(tokens).position()).result,
        r matches Ok(e) ==> {
            &&& final(tokens).position() == parse_grouping(
                old(tokens).tokens(),
                old(tokens).position(),
            ).rest
            &&& covers(
                old(tokens).tokens(),
                old(tokens).position(),
                final(tokens).position() - 1,
                e@,
            )
            &&& e@.well_spanned()
        },
    decreases old(tokens).remaining(), 20nat,
{
    proof {
        use_type_invariant(&*tokens);
    }
    let inner = match expression(tokens) {
        Ok(e) => e,
        Err(error) => {
            return Err(error);
        },
    };
    match tokens.peek() {
        Some(t) => {
            if matches!(t.kind, TokenKind::RightParen) {
                tokens.advance();
                let index = inner.index();
                let len = inner.len();
                Ok(Expr::Grouping { expr: Box::new(inner), index, len })
            } else {
                let mut message = String::from_str("The token ");
                message.append(t.kind.describe().as_str());
                message.append(" was not expected, a ')' was expected");
                Err(LoxSyntaxError::new(message, t.index, t.len))
            }
        },
        None => Err(
            LoxSyntaxError::new(
                String::from_str("Expected ')' after grouped expression"),
                inner.index(),
                inner.len(),
            ),
        ),
    }
}

/// The expression that a token is by itself, if it is one.
fn leaf(token: &Token) -> (r: Option<Expr>)
    ensures
        match r {
            Some(e) => leaf_node(token@) == Some(e@),
            None => leaf_node(token@) is None,
        },
{
    let index = token.index;
    let len = token.len;
    match &token.kind {
        TokenKind::Keyword(KeywordKind::True) => Some(
            Expr::Literal { value: Literal::True, index, len },
        ),
        TokenKind::Keyword(KeywordKind::False) => Some(
            Expr::Literal { value: Literal::False, index, len },
        ),
        TokenKind::Keyword(KeywordKind::Nil) => Some(
            Expr::Literal { value: Literal::Nil, index, len },
        ),
        TokenKind::Literal(LiteralKind::Number(text)) => Some(
            Expr::Literal { value: Literal::Number(text.clone()), index, len },
        ),
        TokenKind::Literal(LiteralKind::Str { value, .. }) => Some(
            Expr::Literal { value: Literal::Str(value.clone()), index, len },
        ),
        TokenKind::Identifier(name) => Some(Expr::Variable { index, len, value: name.clone() }),
        _ => None,
    }
}

/// Parses a primary expression: a literal, a name, or a grouping.
pub fn primary(tokens: &mut TokenStream) -> (r: Result<Expr, LoxSyntaxError>)
    requires
        old(tokens).well_formed(),
    ensures
        parses_expr(
            *old(tokens),
            *final(tokens),
            r,
            parse_primary(old(tokens).tokens(), old(tokens).position()),
        ),
    decreases old(tokens).remaining(), 0nat,
{
    proof {
        use_type_invariant(&*tokens);
    }
    let token = match tokens.peek() {
        Some(t) => t,
        None => {
            // The input ended where an expression had to start: there is no
            // token for the error to point at.
            return Err(
                LoxSyntaxError::new(
                    String::from_str("The expression is does not have a leaf node"),
                    0,
                    0,
                ),
            );
        },
    };
    match leaf(token) {
        Some(expr) => {
            tokens.advance();
            Ok(expr)
        },
        None => {
            if matches!(token.kind, TokenKind::LeftParen) {
                tokens.advance();
                grouping(tokens)
            } else {
                let mut message = String::from_str("Token \"");
                message.append(token.kind.describe().as_str());
                message.append("\" does not match a valid expression");
                Err(LoxSyntaxError::new(message, token.index, token.len))
            }
        },
    }
}

/// The view of what a statement parser returns.
pub open spec fn stmt_result(r: Result<Stmt, LoxSyntaxError>) -> Result<
    StmtView,
    SyntaxErrorView,
> {
    match r {
        Ok(s) => Ok(s@),
        Err(error) => Err(error@),
    }
}

/// What each statement parser promises, given what the grammar says of the
/// tokens from the position at which it started (`expected`): it returns
/// what the grammar says, statement or error. On success it has consumed
/// the tokens of the statement and no others, and every node of every
/// expression in the statement spans its children. The tokens themselves
/// never change.
pub open spec fn parses_stmt(
    before: TokenStream,
    after: TokenStream,
    r: Result<Stmt, LoxSyntaxError>,
    expected: Parsed<StmtView>,
) -> bool {
    &&& after.tokens() == before.tokens()
    &&& after.in_bounds()
    &&& stmt_result(r) == expected.result
    &&& r matches Ok(s) ==> {
        &&& after.position() == expected.rest
        &&& before.position() <= after.position()
        &&& s@.well_spanned()
    }
}

/// Parses one statement.
pub fn statement(tokens: &mut TokenStream) -> (r: Result<Stmt, LoxSyntaxError>)
    requires
        old(tokens).well_formed(),
    ensures
        parses_stmt(
            *old(tokens),
            *final(tokens),
            r,
            parse_statement(old(tokens).tokens(), old(tokens).position()),
        ),
        r is Ok ==> old(tokens).position() < final(tokens).position(),
    decreases old(tokens).remaining(), 0nat,
{
    proof {
        use_type_invariant(&*tokens);
    }
    let lead = match tokens.peek() {
        Some(Token { kind: TokenKind::Keyword(KeywordKind::Print), .. }) => 1u8,
        Some(Token { kind: TokenKind::Keyword(KeywordKind::Var), .. }) => 2u8,
        Some(Token { kind: TokenKind::LeftBrace, .. }) => 3u8,
        _ => 0u8,
    };
    if lead == 1 {
        tokens.advance();
        print_statement(tokens)
    } else if lead == 2 {
        tokens.advance();
        var_declaration(tokens)
    } else if lead == 3 {
        tokens.advance();
        block(tokens)
    } else {
        expression_statement(tokens)
    }
}

/// Parses what follows the keyword `print`.
pub fn print_statement(tokens: &mut TokenStream) -> (r: Result<Stmt, LoxSyntaxError>)
    requires
        old(tokens).well_formed(),
    ensures
        parses_stmt(
            *old(tokens),
            *final(tokens),
            r,
            parse_print_statement(old(tokens).tokens(), old(tokens).position()),
        ),
{
    proof {
        use_type_invariant(&*tokens);
    }
    let expr = match expression(tokens) {
        Ok(e) => e,
        Err(error) => {
            return Err(error);
        },
    };
    let ended = match tokens.peek() {
        Some(t) => matches!(t.kind, TokenKind::Semicolon),
        None => false,
    };
    if ended {
        tokens.advance();
        Ok(Stmt::Print(expr))
    } else {
        Err(
            LoxSyntaxError::new(
                String::from_str("Expected ';' after value."),
                expr.index() + expr.len(),
                0,
            ),
        )
    }
}

/// Parses an expression statement.
pub fn expression_statement(tokens: &mut TokenStream) -> (r: Result<Stmt, LoxSyntaxError>)
    requires
        old(tokens).well_formed(),
    ensures
        parses_stmt(
            *old(tokens),
            *final(tokens),
            r,
            parse_expression_statement(old(tokens).tokens(), old(tokens).position()),
        ),
        r is Ok ==> old(tokens).position() < final(tokens).position(),
{
    proof {
        use_type_invariant(&*tokens);
    }
    let expr = match expression(tokens) {
        Ok(e) => e,
        Err(error) => {
            return Err(error);
        },
    };
    let ended = match tokens.peek() {
        Some(t) => matches!(t.kind, TokenKind::Semicolon),
        None => false,
    };
    if ended {
        tokens.advance();
        Ok(Stmt::Expression(expr))
    } else {
        Err(
            LoxSyntaxError::new(
                String::from_str("Expected ';' after value."),
                expr.index() + expr.len(),
                0,
            ),
        )
    }
}

/// Parses what follows the keyword `var`.
pub fn var_declaration(tokens: &mut TokenStream) -> (r: Result<Stmt, LoxSyntaxError>)
    requires
        old(tokens).well_formed(),
    ensures
        parses_stmt(
            *old(tokens),
            *final(tokens),
            r,
            parse_var_declaration(old(tokens).tokens(), old(tokens).position()),
        ),
{
    proof {
        use_type_invariant(&*tokens);
    }
    let (name, name_end) = match tokens.peek() {
        Some(Token { kind: TokenKind::Identifier(name), index, len }) => (
            name.clone(),
            *index + *len,
        ),
        Some(t) => {
            return Err(
                LoxSyntaxError::new(
                    String::from_str("Expected a variable name after 'var'."),
                    t.index,
                    t.len,
                ),
            );
        },
        None => {
            return Err(
                LoxSyntaxError::new(
                    String::from_str("Expected a variable name after 'var'."),
                    0,
                    0,
                ),
            );
        },
    };
    let follow = match tokens.peek_second() {
        Some(Token { kind: TokenKind::Assign, .. }) => 1u8,
        Some(Token { kind: TokenKind::Semicolon, .. }) => 2u8,
        _ => 0u8,
    };
    if follow == 1 {
        tokens.advance();
        tokens.advance();
        let init = match expression(tokens) {
            Ok(e) => e,
            Err(error) => {
                return Err(error);
            },
        };
        let ended = match tokens.peek() {
            Some(t) => matches!(t.kind, TokenKind::Semicolon),
            None => false,
        };
        if ended {
            tokens.advance();
            Ok(Stmt::Variable(name, Some(init)))
        } else {
            Err(
                LoxSyntaxError::new(
                    String::from_str("Expected ';' after variable declaration."),
                    init.index() + init.len(),
                    0,
                ),
            )
        }
    } else if follow == 2 {
        tokens.advance();
        tokens.advance();
        Ok(Stmt::Variable(name, None))
    } else {
        Err(
            LoxSyntaxError::new(
                String::from_str("Expected ';' after variable declaration."),
                name_end,
                0,
            ),
        )
    }
}

/// Parses what follows the opening brace of a block.
pub fn block(tokens: &mut TokenStream) -> (r: Result<Stmt, LoxSyntaxError>)
    requires
        old(tokens).well_formed(),
    ensures
        parses_stmt(
            *old(tokens),
            *final(tokens),
            r,
            parse_block(old(tokens).tokens(), old(tokens).position(), Seq::empty()),
        ),
    decreases old(tokens).remaining(), 1nat,
{
    proof {
        use_type_invariant(&*tokens);
    }
    let ghost toks = tokens.tokens();
    let ghost start = tokens.position();
    let mut stmts: Vec<Stmt> = Vec::new();
    proof {
        assert(stmt_views(stmts@) =~= Seq::<StmtView>::empty());
    }
    loop
        invariant
            tokens.tokens() == toks,
            toks == old(tokens).tokens(),
            start == old(tokens).position(),
            start <= tokens.position(),
            tokens.well_formed(),
            tokens.in_bounds(),
            parse_block(toks, tokens.position(), stmt_views(stmts@)) == parse_block(
                toks,
                start,
                Seq::empty(),
            ),
            all_well_spanned(stmt_views(stmts@)),
        decreases tokens.remaining(),
    {
        let closing = match tokens.peek() {
            Some(t) => matches!(t.kind, TokenKind::RightBrace),
            None => {
                return Err(
                    LoxSyntaxError::new(String::from_str("Expected '}' after block."), 0, 0),
                );
            },
        };
        if closing {
            tokens.advance();
            proof {
                assert((Stmt::Block(stmts))@ =~= StmtView::Block(
                    stmt_views(stmts@),
                )) by {
                    assert((Stmt::Block(stmts)).model()->Block_0 =~= stmt_views(
                        stmts@,
                    ));
                }
            }
            return Ok(Stmt::Block(stmts));
        }
        let stmt = match statement(tokens) {
            Ok(s) => s,
            Err(error) => {
                return Err(error);
            },
        };
        proof {
            assert(stmt_views(stmts@.push(stmt)) =~= stmt_views(
                stmts@,
            ).push(stmt@));
        }
        stmts.push(stmt);
    }
}

/// The view of what `parse` returns.
pub open spec fn program_result(r: Result<Vec<Stmt>, LoxSyntaxError>) -> Result<
    Seq<StmtView>,
    SyntaxErrorView,
> {
    match r {
        Ok(stmts) => Ok(stmt_views(stmts@)),
        Err(error) => Err(error@),
    }
}

/// Parses statements until the tokens are used up. The first syntax error
/// ends the parse.
pub fn parse(tokens: &mut TokenStream) -> (r: Result<Vec<Stmt>, LoxSyntaxError>)
    requires
        old(tokens).well_formed(),
    ensures
        final(tokens).tokens() == old(tokens).tokens(),
        program_result(r) == parse_statements(
            old(tokens).tokens(),
            old(tokens).position(),
            Seq::empty(),
        ).result,
        r matches Ok(stmts) ==> {
            &&& final(tokens).position() == final(tokens).tokens().len()
            &&& all_well_spanned(stmt_views(stmts@))
        },
{
    proof {
        use_type_invariant(&*tokens);
    }
    let ghost toks = tokens.tokens();
    let ghost start = tokens.position();
    let mut statements: Vec<Stmt> = Vec::new();
    proof {
        assert(stmt_views(statements@) =~= Seq::<StmtView>::empty());
    }
    while !tokens.is_empty()
        invariant
            tokens.tokens() == toks,
            toks == old(tokens).tokens(),
            start == old(tokens).position(),
            tokens.well_formed(),
            tokens.in_bounds(),
            parse_statements(toks, tokens.position(), stmt_views(statements@))
                == parse_statements(toks, start, Seq::empty()),
            all_well_spanned(stmt_views(statements@)),
        decreases tokens.remaining(),
    {
        let stmt = match statement(tokens) {
            Ok(s) => s,
            Err(error) => {
                return Err(error);
            },
        };
        proof {
            assert(stmt_views(statements@.push(stmt)) =~= stmt_views(
                statements@,
            ).push(stmt@));
        }
        statements.push(stmt);
    }
    Ok(statements)
}

/// Scans `source`, drops whitespace and comments, and parses what is left
/// as a program: its statements in order, or the first syntax error.
pub fn scan_and_parse(source: &str) -> (r: Result<Vec<Stmt>, LoxSyntaxError>)
    ensures
        program_result(r) == parse_program(significant(tokens_from(source@, 0))),
        r matches Ok(stmts) ==> all_well_spanned(stmt_views(stmts@)),
{
    let mut tokens = TokenStream::new(scan(source));
    parse(&mut tokens)
}

} // verus!
