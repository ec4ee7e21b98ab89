//! Recursive-descent parsing: turning an Eof-terminated token sequence
//! into a sequence of statements, or the first parsing error.
//!
//! The grammar is precedence-climbing and strictly left-associative except
//! for unary operators, from lowest to highest binding strength:
//! equality (`!=` `==`), comparison (`>` `>=` `<` `<=`), term (`-` `+`),
//! factor (`/` `*`), unary (prefix `!` `-`), primary (a literal, or a
//! parenthesized expression). Each statement is one expression, optionally
//! under `print`, closed by a semicolon.
//!
//! The parser's behaviour is specified by `spec_program` and the spec
//! functions under it, one per grammar level.

use vstd::prelude::*;
use vstd::string::StringExecFns;

use crate::expr::{Expr, ExprView};
use crate::lexing::{clamp_step, Token, TokenKind, TokenView};
use crate::lexing::eof_token;
use crate::stmt::{Stmt, StmtView};

verus! {

/// A parsing error: the offending token, and what was expected of it.
#[derive(Debug)]
pub struct ParseError {
    pub message: String,
    pub token: Token,
}

/// The mathematical content of a `ParseError`.
pub struct ParseErrorView {
    pub message: Seq<char>,
    pub token: TokenView,
}

impl View for ParseError {
    type V = ParseErrorView;

    open spec fn view(&self) -> ParseErrorView {
        ParseErrorView { message: self.message@, token: self.token@ }
    }
}

/// What the parser takes for granted of its input: the scanner ends every
/// token sequence with an Eof token.
pub open spec fn wf_tokens(ts: Seq<TokenView>) -> bool {
    ts.len() > 0 && ts.last().kind == TokenKind::Eof
}

pub open spec fn is_equality_op(kind: TokenKind) -> bool {
    kind == TokenKind::BangEqual || kind == TokenKind::EqualEqual
}

pub open spec fn is_comparison_op(kind: TokenKind) -> bool {
    kind == TokenKind::Greater || kind == TokenKind::GreaterEqual || kind == TokenKind::Less
        || kind == TokenKind::LessEqual
}

pub open spec fn is_term_op(kind: TokenKind) -> bool {
    kind == TokenKind::Minus || kind == TokenKind::Plus
}

pub open spec fn is_factor_op(kind: TokenKind) -> bool {
    kind == TokenKind::Slash || kind == TokenKind::Star
}

pub open spec fn is_unary_op(kind: TokenKind) -> bool {
    kind == TokenKind::Bang || kind == TokenKind::Minus
}

/// The token kinds a literal expression is made of.
pub open spec fn is_literal_kind(kind: TokenKind) -> bool {
    kind == TokenKind::False || kind == TokenKind::True || kind == TokenKind::Nil || kind
        == TokenKind::Number || kind == TokenKind::String
}

/// The error for a position past the end of the tokens. The scanner never
/// produces such a sequence (everything ends with Eof), and the parser's
/// contract rules it out; this value only keeps the specification total.
pub open spec fn no_token_error() -> ParseErrorView {
    ParseErrorView { message: "Unexpected end of tokens"@, token: eof_token(0) }
}

pub open spec fn eof_primary_error(t: TokenView) -> ParseErrorView {
    ParseErrorView { message: "Syntax error: expected primary expression, got EOF"@, token: t }
}

pub open spec fn unexpected_token_error(t: TokenView) -> ParseErrorView {
    ParseErrorView { message: "Syntax error: unexpected token"@, token: t }
}

pub open spec fn close_paren_error(t: TokenView) -> ParseErrorView {
    ParseErrorView { message: "Syntax error: expected ')'"@, token: t }
}

pub open spec fn semicolon_error(t: TokenView) -> ParseErrorView {
    ParseErrorView { message: "Syntax error: expected ';'"@, token: t }
}

/// A closing parenthesis expected at `j`: the position after it, or the
/// error naming the token found instead.
pub open spec fn spec_close_paren(ts: Seq<TokenView>, j: int) -> Result<int, ParseErrorView> {
    if 0 <= j < ts.len() {
        if ts[j].kind == TokenKind::RightParen {
            Result::Ok(j + 1)
        } else {
            Result::Err(close_paren_error(ts[j]))
        }
    } else {
        Result::Err(no_token_error())
    }
}

/// A statement-closing semicolon expected at `j`: the position after it,
/// or the error naming the token found instead.
pub open spec fn spec_semicolon(ts: Seq<TokenView>, j: int) -> Result<int, ParseErrorView> {
    if 0 <= j < ts.len() {
        if ts[j].kind == TokenKind::Semicolon {
            Result::Ok(j + 1)
        } else {
            Result::Err(semicolon_error(ts[j]))
        }
    } else {
        Result::Err(no_token_error())
    }
}

/// primary := literal | "(" expression ")". A literal expression copies
/// the token's literal (so `nil` gives the absent value). Eof here is the
/// unexpected-end-of-input error; any other token is unexpected.
pub open spec fn spec_primary(ts: Seq<TokenView>, i: int) -> Result<(ExprView, int), ParseErrorView>
    decreases ts.len() - i, 0int,
{
    if !(0 <= i < ts.len()) {
        Result::Err(no_token_error())
    } else {
        let t = ts[i];
        if is_literal_kind(t.kind) {
            Result::Ok((ExprView::Literal { value: t.literal }, i + 1))
        } else if t.kind == TokenKind::LeftParen {
            match spec_expression(ts, i + 1) {
                Result::Err(e) => Result::Err(e),
                Result::Ok((inner, j)) => match spec_close_paren(ts, j) {
                    Result::Err(e) => Result::Err(e),
                    Result::Ok(j2) => Result::Ok(
                        (ExprView::Grouping { expr: Box::new(inner) }, j2),
                    ),
                },
            }
        } else if t.kind == TokenKind::Eof {
            Result::Err(eof_primary_error(t))
        } else {
            Result::Err(unexpected_token_error(t))
        }
    }
}

/// unary := ("!" | "-") unary | primary.
pub open spec fn spec_unary(ts: Seq<TokenView>, i: int) -> Result<(ExprView, int), ParseErrorView>
    decreases ts.len() - i, 1int,
{
    if 0 <= i < ts.len() && is_unary_op(ts[i].kind) {
        match spec_unary(ts, i + 1) {
            Result::Err(e) => Result::Err(e),
            Result::Ok((right, j)) => Result::Ok(
                (ExprView::Unary { op: ts[i], right: Box::new(right) }, j),
            ),
        }
    } else {
        spec_primary(ts, i)
    }
}

/// factor := unary (("/" | "*") unary)*, left-associative.
pub open spec fn spec_factor_more(ts: Seq<TokenView>, left: ExprView, j: int) -> Result<
    (ExprView, int),
    ParseErrorView,
>
    decreases ts.len() - j, 2int,
{
    if 0 <= j < ts.len() && is_factor_op(ts[j].kind) {
        match spec_unary(ts, j + 1) {
            Result::Err(e) => Result::Err(e),
            Result::Ok((right, k)) => spec_factor_more(
                ts,
                ExprView::Binary { left: Box::new(left), op: ts[j], right: Box::new(right) },
                clamp_step(ts.len() as int, j + 1, k),
            ),
        }
    } else {
        Result::Ok((left, j))
    }
}

pub open spec fn spec_factor(ts: Seq<TokenView>, i: int) -> Result<(ExprView, int), ParseErrorView>
    decreases ts.len() - i, 3int,
{
    if !(0 <= i < ts.len()) {
        Result::Err(no_token_error())
    } else {
        match spec_unary(ts, i) {
            Result::Err(e) => Result::Err(e),
            Result::Ok((left, j)) => spec_factor_more(ts, left, clamp_step(ts.len() as int, i, j)),
        }
    }
}

/// term := factor (("-" | "+") factor)*, left-associative.
pub open spec fn spec_term_more(ts: Seq<TokenView>, left: ExprView, j: int) -> Result<
    (ExprView, int),
    ParseErrorView,
>
    decreases ts.len() - j, 4int,
{
    if 0 <= j < ts.len() && is_term_op(ts[j].kind) {
        match spec_factor(ts, j + 1) {
            Result::Err(e) => Result::Err(e),
            Result::Ok((right, k)) => spec_term_more(
                ts,
                ExprView::Binary { left: Box::new(left), op: ts[j], right: Box::new(right) },
                clamp_step(ts.len() as int, j + 1, k),
            ),
        }
    } else {
        Result::Ok((left, j))
    }
}

pub open spec fn spec_term(ts: Seq<TokenView>, i: int) -> Result<(ExprView, int), ParseErrorView>
    decreases ts.len() - i, 5int,
{
    if !(0 <= i < ts.len()) {
        Result::Err(no_token_error())
    } else {
        match spec_factor(ts, i) {
            Result::Err(e) => Result::Err(e),
            Result::Ok((left, j)) => spec_term_more(ts, left, clamp_step(ts.len() as int, i, j)),
        }
    }
}

/// comparison := term ((">" | ">=" | "<" | "<=") term)*, left-associative.
pub open spec fn spec_comparison_more(ts: Seq<TokenView>, left: ExprView, j: int) -> Result<
    (ExprView, int),
    ParseErrorView,
>
    decreases ts.len() - j, 6int,
{
    if 0 <= j < ts.len() && is_comparison_op(ts[j].kind) {
        match spec_term(ts, j + 1) {
            Result::Err(e) => Result::Err(e),
            Result::Ok((right, k)) => spec_comparison_more(
                ts,
                ExprView::Binary { left: Box::new(left), op: ts[j], right: Box::new(right) },
                clamp_step(ts.len() as int, j + 1, k),
            ),
        }
    } else {
        Result::Ok((left, j))
    }
}

pub open spec fn spec_comparison(ts: Seq<TokenView>, i: int) -> Result<
    (ExprView, int),
    ParseErrorView,
>
    decreases ts.len() - i, 7int,
{
    if !(0 <= i < ts.len()) {
        Result::Err(no_token_error())
    } else {
        match spec_term(ts, i) {
            Result::Err(e) => Result::Err(e),
            Result::Ok((left, j)) => spec_comparison_more(
                ts,
                left,
                clamp_step(ts.len() as int, i, j),
            ),
        }
    }
}

/// equality := comparison (("!=" | "==") comparison)*, left-associative.
pub open spec fn spec_equality_more(ts: Seq<TokenView>, left: ExprView, j: int) -> Result<
    (ExprView, int),
    ParseErrorView,
>
    decreases ts.len() - j, 8int,
{
    if 0 <= j < ts.len() && is_equality_op(ts[j].kind) {
        match spec_comparison(ts, j + 1) {
            Result::Err(e) => Result::Err(e),
            Result::Ok((right, k)) => spec_equality_more(
                ts,
                ExprView::Binary { left: Box::new(left), op: ts[j], right: Box::new(right) },
                clamp_step(ts.len() as int, j + 1, k),
            ),
        }
    } else {
        Result::Ok((left, j))
    }
}

pub open spec fn spec_equality(ts: Seq<TokenView>, i: int) -> Result<
    (ExprView, int),
    ParseErrorView,
>
    decreases ts.len() - i, 9int,
{
    if !(0 <= i < ts.len()) {
        Result::Err(no_token_error())
    } else {
        match spec_comparison(ts, i) {
            Result::Err(e) => Result::Err(e),
            Result::Ok((left, j)) => spec_equality_more(
                ts,
                left,
                clamp_step(ts.len() as int, i, j),
            ),
        }
    }
}

/// expression := equality.
pub open spec fn spec_expression(ts: Seq<TokenView>, i: int) -> Result<
    (ExprView, int),
    ParseErrorView,
>
    decreases ts.len() - i, 10int,
{
    if !(0 <= i < ts.len()) {
        Result::Err(no_token_error())
    } else {
        spec_equality(ts, i)
    }
}

/// statement := "print" expression ";" | expression ";".
pub open spec fn spec_statement(ts: Seq<TokenView>, i: int) -> Result<
    (StmtView, int),
    ParseErrorView,
>
    decreases ts.len() - i, 11int,
{
    if !(0 <= i < ts.len()) {
        Result::Err(no_token_error())
    } else if ts[i].kind == TokenKind::Print {
        match spec_expression(ts, i + 1) {
            Result::Err(e) => Result::Err(e),
            Result::Ok((e, j)) => match spec_semicolon(ts, j) {
                Result::Err(pe) => Result::Err(pe),
                Result::Ok(j2) => Result::Ok((StmtView::Print(e), j2)),
            },
        }
    } else {
        match spec_expression(ts, i) {
            Result::Err(e) => Result::Err(e),
            Result::Ok((e, j)) => match spec_semicolon(ts, j) {
                Result::Err(pe) => Result::Err(pe),
                Result::Ok(j2) => Result::Ok((StmtView::Expr(e), j2)),
            },
        }
    }
}

/// program := statement* Eof: the whole parse, statement by statement,
/// until the Eof token.
pub open spec fn spec_program(ts: Seq<TokenView>, i: int) -> Result<Seq<StmtView>, ParseErrorView>
    decreases ts.len() - i, 12int,
{
    if !(0 <= i < ts.len()) {
        Result::Err(no_token_error())
    } else if ts[i].kind == TokenKind::Eof {
        Result::Ok(Seq::empty())
    } else {
        match spec_statement(ts, i) {
            Result::Err(e) => Result::Err(e),
            Result::Ok((s, j)) => match spec_program(ts, clamp_step(ts.len() as int, i, j)) {
                Result::Err(e) => Result::Err(e),
                Result::Ok(rest) => Result::Ok(seq![s] + rest),
            },
        }
    }
}

/// On Eof-terminated tokens, a successful primary ends past its start and
/// before the Eof token.
pub proof fn lemma_primary_bounds(ts: Seq<TokenView>, i: int)
    requires
        wf_tokens(ts),
        0 <= i,
    ensures
        spec_primary(ts, i) matches Result::Ok((e, j)) ==> i < j < ts.len(),
    decreases ts.len() - i, 0int,
{
    if i < ts.len() {
        let t = ts[i];
        if is_literal_kind(t.kind) {
            assert(ts[ts.len() - 1].kind == TokenKind::Eof);
        } else if t.kind == TokenKind::LeftParen {
            lemma_expression_bounds(ts, i + 1);
            match spec_expression(ts, i + 1) {
                Result::Ok((inner, j)) => {
                    if spec_close_paren(ts, j) matches Result::Ok(j2) {
                        assert(ts[j].kind == TokenKind::RightParen);
                        assert(ts[ts.len() - 1].kind == TokenKind::Eof);
                    }
                },
                Result::Err(_) => {},
            }
        }
    }
}

/// On Eof-terminated tokens, a successful unary ends past its start and
/// before the Eof token.
pub proof fn lemma_unary_bounds(ts: Seq<TokenView>, i: int)
    requires
        wf_tokens(ts),
        0 <= i,
    ensures
        spec_unary(ts, i) matches Result::Ok((e, j)) ==> i < j < ts.len(),
    decreases ts.len() - i, 1int,
{
    if 0 <= i < ts.len() && is_unary_op(ts[i].kind) {
        lemma_unary_bounds(ts, i + 1);
    } else {
        lemma_primary_bounds(ts, i);
    }
}

/// On Eof-terminated tokens, a successful factor tail never moves backward
/// and ends before the Eof token.
pub proof fn lemma_factor_more_bounds(ts: Seq<TokenView>, left: ExprView, j: int)
    requires
        wf_tokens(ts),
        0 <= j < ts.len(),
    ensures
        spec_factor_more(ts, left, j) matches Result::Ok((e, k)) ==> j <= k < ts.len(),
    decreases ts.len() - j, 2int,
{
    if is_factor_op(ts[j].kind) {
        assert(ts[ts.len() - 1].kind == TokenKind::Eof);
        lemma_unary_bounds(ts, j + 1);
        match spec_unary(ts, j + 1) {
            Result::Ok((right, k)) => {
                let next = ExprView::Binary {
                    left: Box::new(left),
                    op: ts[j],
                    right: Box::new(right),
                };
                assert(clamp_step(ts.len() as int, j + 1, k) == k);
                lemma_factor_more_bounds(ts, next, k);
            },
            Result::Err(_) => {},
        }
    }
}

/// On Eof-terminated tokens, a successful factor ends past its start and
/// before the Eof token.
pub proof fn lemma_factor_bounds(ts: Seq<TokenView>, i: int)
    requires
        wf_tokens(ts),
        0 <= i,
    ensures
        spec_factor(ts, i) matches Result::Ok((e, j)) ==> i < j < ts.len(),
    decreases ts.len() - i, 3int,
{
    if 0 <= i < ts.len() {
        lemma_unary_bounds(ts, i);
        match spec_unary(ts, i) {
            Result::Ok((left, j)) => {
                assert(clamp_step(ts.len() as int, i, j) == j);
                lemma_factor_more_bounds(ts, left, j);
            },
            Result::Err(_) => {},
        }
    }
}

/// On Eof-terminated tokens, a successful term tail never moves backward
/// and ends before the Eof token.
pub proof fn lemma_term_more_bounds(ts: Seq<TokenView>, left: ExprView, j: int)
    requires
        wf_tokens(ts),
        0 <= j < ts.len(),
    ensures
        spec_term_more(ts, left, j) matches Result::Ok((e, k)) ==> j <= k < ts.len(),
    decreases ts.len() - j, 4int,
{
    if is_term_op(ts[j].kind) {
        assert(ts[ts.len() - 1].kind == TokenKind::Eof);
        lemma_factor_bounds(ts, j + 1);
        match spec_factor(ts, j + 1) {
            Result::Ok((right, k)) => {
                let next = ExprView::Binary {
                    left: Box::new(left),
                    op: ts[j],
                    right: Box::new(right),
                };
                assert(clamp_step(ts.len() as int, j + 1, k) == k);
                lemma_term_more_bounds(ts, next, k);
            },
            Result::Err(_) => {},
        }
    }
}

/// On Eof-terminated tokens, a successful term ends past its start and
/// before the Eof token.
pub proof fn lemma_term_bounds(ts: Seq<TokenView>, i: int)
    requires
        wf_tokens(ts),
        0 <= i,
    ensures
        spec_term(ts, i) matches Result::Ok((e, j)) ==> i < j < ts.len(),
    decreases ts.len() - i, 5int,
{
    if 0 <= i < ts.len() {
        lemma_factor_bounds(ts, i);
        match spec_factor(ts, i) {
            Result::Ok((left, j)) => {
                assert(clamp_step(ts.len() as int, i, j) == j);
                lemma_term_more_bounds(ts, left, j);
            },
            Result::Err(_) => {},
        }
    }
}

/// On Eof-terminated tokens, a successful comparison tail never moves
/// backward and ends before the Eof token.
pub proof fn lemma_comparison_more_bounds(ts: Seq<TokenView>, left: ExprView, j: int)
    requires
        wf_tokens(ts),
        0 <= j < ts.len(),
    ensures
        spec_comparison_more(ts, left, j) matches Result::Ok((e, k)) ==> j <= k < ts.len(),
    decreases ts.len() - j, 6int,
{
    if is_comparison_op(ts[j].kind) {
        assert(ts[ts.len() - 1].kind == TokenKind::Eof);
        lemma_term_bounds(ts, j + 1);
        match spec_term(ts, j + 1) {
            Result::Ok((right, k)) => {
                let next = ExprView::Binary {
                    left: Box::new(left),
                    op: ts[j],
                    right: Box::new(right),
                };
                assert(clamp_step(ts.len() as int, j + 1, k) == k);
                lemma_comparison_more_bounds(ts, next, k);
            },
            Result::Err(_) => {},
        }
    }
}

/// On Eof-terminated tokens, a successful comparison ends past its start
/// and before the Eof token.
pub proof fn lemma_comparison_bounds(ts: Seq<TokenView>, i: int)
    requires
        wf_tokens(ts),
        0 <= i,
    ensures
        spec_comparison(ts, i) matches Result::Ok((e, j)) ==> i < j < ts.len(),
    decreases ts.len() - i, 7int,
{
    if 0 <= i < ts.len() {
        lemma_term_bounds(ts, i);
        match spec_term(ts, i) {
            Result::Ok((left, j)) => {
                assert(clamp_step(ts.len() as int, i, j) == j);
                lemma_comparison_more_bounds(ts, left, j);
            },
            Result::Err(_) => {},
        }
    }
}

/// On Eof-terminated tokens, a successful equality tail never moves
/// backward and ends before the Eof token.
pub proof fn lemma_equality_more_bounds(ts: Seq<TokenView>, left: ExprView, j: int)
    requires
        wf_tokens(ts),
        0 <= j < ts.len(),
    ensures
        spec_equality_more(ts, left, j) matches Result::Ok((e, k)) ==> j <= k < ts.len(),
    decreases ts.len() - j, 8int,
{
    if is_equality_op(ts[j].kind) {
        assert(ts[ts.len() - 1].kind == TokenKind::Eof);
        lemma_comparison_bounds(ts, j + 1);
        match spec_comparison(ts, j + 1) {
            Result::Ok((right, k)) => {
                let next = ExprView::Binary {
                    left: Box::new(left),
                    op: ts[j],
                    right: Box::new(right),
                };
                assert(clamp_step(ts.len() as int, j + 1, k) == k);
                lemma_equality_more_bounds(ts, next, k);
            },
            Result::Err(_) => {},
        }
    }
}

/// On Eof-terminated tokens, a successful equality ends past its start and
/// before the Eof token.
pub proof fn lemma_equality_bounds(ts: Seq<TokenView>, i: int)
    requires
        wf_tokens(ts),
        0 <= i,
    ensures
        spec_equality(ts, i) matches Result::Ok((e, j)) ==> i < j < ts.len(),
    decreases ts.len() - i, 9int,
{
    if 0 <= i < ts.len() {
        lemma_comparison_bounds(ts, i);
        match spec_comparison(ts, i) {
            Result::Ok((left, j)) => {
                assert(clamp_step(ts.len() as int, i, j) == j);
                lemma_equality_more_bounds(ts, left, j);
            },
            Result::Err(_) => {},
        }
    }
}

/// On Eof-terminated tokens, a successful expression ends past its start
/// and before the Eof token.
pub proof fn lemma_expression_bounds(ts: Seq<TokenView>, i: int)
    requires
        wf_tokens(ts),
        0 <= i,
    ensures
        spec_expression(ts, i) matches Result::Ok((e, j)) ==> i < j < ts.len(),
    decreases ts.len() - i, 10int,
{
    if 0 <= i < ts.len() {
        lemma_equality_bounds(ts, i);
    }
}

/// On Eof-terminated tokens, a successful statement ends past its start
/// and before the Eof token.
pub proof fn lemma_statement_bounds(ts: Seq<TokenView>, i: int)
    requires
        wf_tokens(ts),
        0 <= i,
    ensures
        spec_statement(ts, i) matches Result::Ok((s, j)) ==> i < j < ts.len(),
    decreases ts.len() - i, 11int,
{
    if 0 <= i < ts.len() {
        lemma_expression_bounds(ts, i + 1);
        lemma_expression_bounds(ts, i);
        assert(ts[ts.len() - 1].kind == TokenKind::Eof);
    }
}

/// A consumed token is never the Eof token, so on Eof-terminated tokens
/// the position after it is still inside the sequence.
proof fn lemma_consumed_not_last(ts: Seq<TokenView>, i: int)
    requires
        wf_tokens(ts),
        0 <= i < ts.len(),
        ts[i].kind != TokenKind::Eof,
    ensures
        i + 1 < ts.len(),
{
    assert(ts[ts.len() - 1].kind == TokenKind::Eof);
}

/// A `Vec`'s length always fits in `usize`.
proof fn lemma_tokens_len_bound(tokens: &Vec<Token>)
    ensures
        tokens@.len() <= usize::MAX,
        tokens.deep_view().len() == tokens@.len(),
{
    broadcast use vstd::std_specs::vec::axiom_spec_len;

    assert(tokens.len() == tokens@.len());
}

fn primary(tokens: &Vec<Token>, pos: &mut usize) -> (r: Result<Expr, ParseError>)
    requires
        wf_tokens(tokens.deep_view()),
        *old(pos) < tokens.deep_view().len(),
    ensures
        ({
            let s = spec_primary(tokens.deep_view(), *old(pos) as int);
            match r {
                Result::Ok(e) => s == Result::Ok::<(ExprView, int), ParseErrorView>(
                    (e@, *final(pos) as int),
                ) && *old(pos) < *final(pos) < tokens.deep_view().len(),
                Result::Err(pe) => s == Result::Err::<(ExprView, int), ParseErrorView>(pe@),
            }
        }),
    decreases tokens.deep_view().len() - *old(pos), 0int,
{
    let ghost tv = tokens.deep_view();
    let ghost i0 = *pos as int;
    proof {
        lemma_tokens_len_bound(tokens);
        assert(tv[i0] == tokens@[i0]@);
    }
    let t = &tokens[*pos];
    if matches!(
        t.kind,
        TokenKind::False | TokenKind::True | TokenKind::Nil | TokenKind::Number | TokenKind::String
    ) {
        let value = match &t.literal {
            Option::None => Option::None,
            Option::Some(v) => Option::Some(v.clone()),
        };
        proof {
            lemma_consumed_not_last(tv, i0);
        }
        *pos = *pos + 1;
        Result::Ok(Expr::Literal { value })
    } else if matches!(t.kind, TokenKind::LeftParen) {
        proof {
            lemma_consumed_not_last(tv, i0);
        }
        *pos = *pos + 1;
        let inner = match expression(tokens, pos) {
            Result::Ok(e) => e,
            Result::Err(pe) => {
                return Result::Err(pe);
            },
        };
        match expect_closing_paren(tokens, pos) {
            Result::Ok(()) => Result::Ok(Expr::Grouping { expr: Box::new(inner) }),
            Result::Err(pe) => Result::Err(pe),
        }
    } else if matches!(t.kind, TokenKind::Eof) {
        Result::Err(
            ParseError {
                message: String::from_str("Syntax error: expected primary expression, got EOF"),
                token: t.clone(),
            },
        )
    } else {
        Result::Err(
            ParseError {
                message: String::from_str("Syntax error: unexpected token"),
                token: t.clone(),
            },
        )
    }
}

/// Consume the closing parenthesis of a grouping, or fail naming the token
/// found instead.
fn expect_closing_paren(tokens: &Vec<Token>, pos: &mut usize) -> (r: Result<(), ParseError>)
    requires
        wf_tokens(tokens.deep_view()),
        *old(pos) < tokens.deep_view().len(),
    ensures
        ({
            let s = spec_close_paren(tokens.deep_view(), *old(pos) as int);
            match r {
                Result::Ok(()) => s == Result::Ok::<int, ParseErrorView>(*final(pos) as int) && *old(pos)
                    < *final(pos) < tokens.deep_view().len(),
                Result::Err(pe) => s == Result::Err::<int, ParseErrorView>(pe@),
            }
        }),
{
    let ghost tv = tokens.deep_view();
    let ghost i0 = *pos as int;
    proof {
        lemma_tokens_len_bound(tokens);
        assert(tv[i0] == tokens@[i0]@);
    }
    let t = &tokens[*pos];
    if matches!(t.kind, TokenKind::RightParen) {
        proof {
            lemma_consumed_not_last(tv, i0);
        }
        *pos = *pos + 1;
        Result::Ok(())
    } else {
        Result::Err(
            ParseError {
                message: String::from_str("Syntax error: expected ')'"),
                token: t.clone(),
            },
        )
    }
}

/// Consume the semicolon that closes a statement, or fail naming the token
/// found instead.
fn expect_semicolon(tokens: &Vec<Token>, pos: &mut usize) -> (r: Result<(), ParseError>)
    requires
        wf_tokens(tokens.deep_view()),
        *old(pos) < tokens.deep_view().len(),
    ensures
        ({
            let s = spec_semicolon(tokens.deep_view(), *old(pos) as int);
            match r {
                Result::Ok(()) => s == Result::Ok::<int, ParseErrorView>(*final(pos) as int) && *old(pos)
                    < *final(pos) < tokens.deep_view().len(),
                Result::Err(pe) => s == Result::Err::<int, ParseErrorView>(pe@),
            }
        }),
{
    let ghost tv = tokens.deep_view();
    let ghost i0 = *pos as int;
    proof {
        lemma_tokens_len_bound(tokens);
        assert(tv[i0] == tokens@[i0]@);
    }
    let t = &tokens[*pos];
    if matches!(t.kind, TokenKind::Semicolon) {
        proof {
            lemma_consumed_not_last(tv, i0);
        }
        *pos = *pos + 1;
        Result::Ok(())
    } else {
        Result::Err(
            ParseError {
                message: String::from_str("Syntax error: expected ';'"),
                token: t.clone(),
            },
        )
    }
}

fn unary(tokens: &Vec<Token>, pos: &mut usize) -> (r: Result<Expr, ParseError>)
    requires
        wf_tokens(tokens.deep_view()),
        *old(pos) < tokens.deep_view().len(),
    ensures
        ({
            let s = spec_unary(tokens.deep_view(), *old(pos) as int);
            match r {
                Result::Ok(e) => s == Result::Ok::<(ExprView, int), ParseErrorView>(
                    (e@, *final(pos) as int),
                ) && *old(pos) < *final(pos) < tokens.deep_view().len(),
                Result::Err(pe) => s == Result::Err::<(ExprView, int), ParseErrorView>(pe@),
            }
        }),
    decreases tokens.deep_view().len() - *old(pos), 1int,
{
    let ghost tv = tokens.deep_view();
    let ghost i0 = *pos as int;
    proof {
        lemma_tokens_len_bound(tokens);
        assert(tv[i0] == tokens@[i0]@);
    }
    if matches!(tokens[*pos].kind, TokenKind::Bang | TokenKind::Minus) {
        let op = tokens[*pos].clone();
        proof {
            lemma_consumed_not_last(tv, i0);
        }
        *pos = *pos + 1;
        match unary(tokens, pos) {
            Result::Ok(right) => Result::Ok(Expr::Unary { op, right: Box::new(right) }),
            Result::Err(pe) => Result::Err(pe),
        }
    } else {
        primary(tokens, pos)
    }
}

#[verifier::rlimit(100)]
fn factor(tokens: &Vec<Token>, pos: &mut usize) -> (r: Result<Expr, ParseError>)
    requires
        wf_tokens(tokens.deep_view()),
        *old(pos) < tokens.deep_view().len(),
    ensures
        ({
            let s = spec_factor(tokens.deep_view(), *old(pos) as int);
            match r {
                Result::Ok(e) => s == Result::Ok::<(ExprView, int), ParseErrorView>(
                    (e@, *final(pos) as int),
                ) && *old(pos) < *final(pos) < tokens.deep_view().len(),
                Result::Err(pe) => s == Result::Err::<(ExprView, int), ParseErrorView>(pe@),
            }
        }),
    decreases tokens.deep_view().len() - *old(pos), 3int,
{
    let ghost tv = tokens.deep_view();
    let ghost i0 = *pos as int;
    let mut left = match unary(tokens, pos) {
        Result::Ok(e) => e,
        Result::Err(pe) => {
            return Result::Err(pe);
        },
    };
    proof {
        assert(clamp_step(tv.len() as int, i0, *pos as int) == *pos as int);
    }
    loop
        invariant
            wf_tokens(tv),
            tv == tokens.deep_view(),
            i0 == *old(pos) as int,
            i0 < *pos < tv.len(),
            spec_factor_more(tv, left@, *pos as int) == spec_factor(tv, i0),
        decreases tv.len() - *pos,
    {
        proof {
            lemma_tokens_len_bound(tokens);
            assert(tv[*pos as int] == tokens@[*pos as int]@);
        }
        if matches!(tokens[*pos].kind, TokenKind::Slash | TokenKind::Star) {
            let op = tokens[*pos].clone();
            let ghost jop = *pos as int;
            proof {
                lemma_consumed_not_last(tv, jop);
            }
            *pos = *pos + 1;
            let right = match unary(tokens, pos) {
                Result::Ok(e) => e,
                Result::Err(pe) => {
                    return Result::Err(pe);
                },
            };
            left = Expr::Binary { left: Box::new(left), op, right: Box::new(right) };
            proof {
                assert(clamp_step(tv.len() as int, jop + 1, *pos as int) == *pos as int);
            }
        } else {
            return Result::Ok(left);
        }
    }
}

#[verifier::rlimit(100)]
fn term(tokens: &Vec<Token>, pos: &mut usize) -> (r: Result<Expr, ParseError>)
    requires
        wf_tokens(tokens.deep_view()),
        *old(pos) < tokens.deep_view().len(),
    ensures
        ({
            let s = spec_term(tokens.deep_view(), *old(pos) as int);
            match r {
                Result::Ok(e) => s == Result::Ok::<(ExprView, int), ParseErrorView>(
                    (e@, *final(pos) as int),
                ) && *old(pos) < *final(pos) < tokens.deep_view().len(),
                Result::Err(pe) => s == Result::Err::<(ExprView, int), ParseErrorView>(pe@),
            }
        }),
    decreases tokens.deep_view().len() - *old(pos), 5int,
{
    let ghost tv = tokens.deep_view();
    let ghost i0 = *pos as int;
    let mut left = match factor(tokens, pos) {
        Result::Ok(e) => e,
        Result::Err(pe) => {
            return Result::Err(pe);
        },
    };
    proof {
        assert(clamp_step(tv.len() as int, i0, *pos as int) == *pos as int);
    }
    loop
        invariant
            wf_tokens(tv),
            tv == tokens.deep_view(),
            i0 == *old(pos) as int,
            i0 < *pos < tv.len(),
            spec_term_more(tv, left@, *pos as int) == spec_term(tv, i0),
        decreases tv.len() - *pos,
    {
        proof {
            lemma_tokens_len_bound(tokens);
            assert(tv[*pos as int] == tokens@[*pos as int]@);
        }
        if matches!(tokens[*pos].kind, TokenKind::Minus | TokenKind::Plus) {
            let op = tokens[*pos].clone();
            let ghost jop = *pos as int;
            proof {
                lemma_consumed_not_last(tv, jop);
            }
            *pos = *pos + 1;
            let right = match factor(tokens, pos) {
                Result::Ok(e) => e,
                Result::Err(pe) => {
                    return Result::Err(pe);
                },
            };
            left = Expr::Binary { left: Box::new(left), op, right: Box::new(right) };
            proof {
                assert(clamp_step(tv.len() as int, jop + 1, *pos as int) == *pos as int);
            }
        } else {
            return Result::Ok(left);
        }
    }
}

#[verifier::rlimit(100)]
fn comparison(tokens: &Vec<Token>, pos: &mut usize) -> (r: Result<Expr, ParseError>)
    requires
        wf_tokens(tokens.deep_view()),
        *old(pos) < tokens.deep_view().len(),
    ensures
        ({
            let s = spec_comparison(tokens.deep_view(), *old(pos) as int);
            match r {
                Result::Ok(e) => s == Result::Ok::<(ExprView, int), ParseErrorView>(
                    (e@, *final(pos) as int),
                ) && *old(pos) < *final(pos) < tokens.deep_view().len(),
                Result::Err(pe) => s == Result::Err::<(ExprView, int), ParseErrorView>(pe@),
            }
        }),
    decreases tokens.deep_view().len() - *old(pos), 7int,
{
    let ghost tv = tokens.deep_view();
    let ghost i0 = *pos as int;
    let mut left = match term(tokens, pos) {
        Result::Ok(e) => e,
        Result::Err(pe) => {
            return Result::Err(pe);
        },
    };
    proof {
        assert(clamp_step(tv.len() as int, i0, *pos as int) == *pos as int);
    }
    loop
        invariant
            wf_tokens(tv),
            tv == tokens.deep_view(),
            i0 == *old(pos) as int,
            i0 < *pos < tv.len(),
            spec_comparison_more(tv, left@, *pos as int) == spec_comparison(tv, i0),
        decreases tv.len() - *pos,
    {
        proof {
            lemma_tokens_len_bound(tokens);
            assert(tv[*pos as int] == tokens@[*pos as int]@);
        }
        if matches!(
            tokens[*pos].kind,
            TokenKind::Greater | TokenKind::GreaterEqual | TokenKind::Less | TokenKind::LessEqual
        ) {
            let op = tokens[*pos].clone();
            let ghost jop = *pos as int;
            proof {
                lemma_consumed_not_last(tv, jop);
            }
            *pos = *pos + 1;
            let right = match term(tokens, pos) {
                Result::Ok(e) => e,
                Result::Err(pe) => {
                    return Result::Err(pe);
                },
            };
            left = Expr::Binary { left: Box::new(left), op, right: Box::new(right) };
            proof {
                assert(clamp_step(tv.len() as int, jop + 1, *pos as int) == *pos as int);
            }
        } else {
            return Result::Ok(left);
        }
    }
}

#[verifier::rlimit(100)]
fn equality(tokens: &Vec<Token>, pos: &mut usize) -> (r: Result<Expr, ParseError>)
    requires
        wf_tokens(tokens.deep_view()),
        *old(pos) < tokens.deep_view().len(),
    ensures
        ({
            let s = spec_equality(tokens.deep_view(), *old(pos) as int);
            match r {
                Result::Ok(e) => s == Result::Ok::<(ExprView, int), ParseErrorView>(
                    (e@, *final(pos) as int),
                ) && *old(pos) < *final(pos) < tokens.deep_view().len(),
                Result::Err(pe) => s == Result::Err::<(ExprView, int), ParseErrorView>(pe@),
            }
        }),
    decreases tokens.deep_view().len() - *old(pos), 9int,
{
    let ghost tv = tokens.deep_view();
    let ghost i0 = *pos as int;
    let mut left = match comparison(tokens, pos) {
        Result::Ok(e) => e,
        Result::Err(pe) => {
            return Result::Err(pe);
        },
    };
    proof {
        assert(clamp_step(tv.len() as int, i0, *pos as int) == *pos as int);
    }
    loop
        invariant
            wf_tokens(tv),
            tv == tokens.deep_view(),
            i0 == *old(pos) as int,
            i0 < *pos < tv.len(),
            spec_equality_more(tv, left@, *pos as int) == spec_equality(tv, i0),
        decreases tv.len() - *pos,
    {
        proof {
            lemma_tokens_len_bound(tokens);
            assert(tv[*pos as int] == tokens@[*pos as int]@);
        }
        if matches!(tokens[*pos].kind, TokenKind::BangEqual | TokenKind::EqualEqual) {
            let op = tokens[*pos].clone();
            let ghost jop = *pos as int;
            proof {
                lemma_consumed_not_last(tv, jop);
            }
            *pos = *pos + 1;
            let right = match comparison(tokens, pos) {
                Result::Ok(e) => e,
                Result::Err(pe) => {
                    return Result::Err(pe);
                },
            };
            left = Expr::Binary { left: Box::new(left), op, right: Box::new(right) };
            proof {
                assert(clamp_step(tv.len() as int, jop + 1, *pos as int) == *pos as int);
            }
        } else {
            return Result::Ok(left);
        }
    }
}

fn expression(tokens: &Vec<Token>, pos: &mut usize) -> (r: Result<Expr, ParseError>)
    requires
        wf_tokens(tokens.deep_view()),
        *old(pos) < tokens.deep_view().len(),
    ensures
        ({
            let s = spec_expression(tokens.deep_view(), *old(pos) as int);
            match r {
                Result::Ok(e) => s == Result::Ok::<(ExprView, int), ParseErrorView>(
                    (e@, *final(pos) as int),
                ) && *old(pos) < *final(pos) < tokens.deep_view().len(),
                Result::Err(pe) => s == Result::Err::<(ExprView, int), ParseErrorView>(pe@),
            }
        }),
    decreases tokens.deep_view().len() - *old(pos), 10int,
{
    equality(tokens, pos)
}

/// Parse one statement: `print expression ;` or `expression ;`.
fn parse_statement(tokens: &Vec<Token>, pos: &mut usize) -> (r: Result<Stmt, ParseError>)
    requires
        wf_tokens(tokens.deep_view()),
        *old(pos) < tokens.deep_view().len(),
    ensures
        ({
            let s = spec_statement(tokens.deep_view(), *old(pos) as int);
            match r {
                Result::Ok(st) => s == Result::Ok::<(StmtView, int), ParseErrorView>(
                    (st@, *final(pos) as int),
                ) && *old(pos) < *final(pos) < tokens.deep_view().len(),
                Result::Err(pe) => s == Result::Err::<(StmtView, int), ParseErrorView>(pe@),
            }
        }),
{
    let ghost tv = tokens.deep_view();
    let ghost i0 = *pos as int;
    proof {
        lemma_tokens_len_bound(tokens);
        assert(tv[i0] == tokens@[i0]@);
    }
    if matches!(tokens[*pos].kind, TokenKind::Print) {
        proof {
            lemma_consumed_not_last(tv, i0);
        }
        *pos = *pos + 1;
        let e = match expression(tokens, pos) {
            Result::Ok(e) => e,
            Result::Err(pe) => {
                return Result::Err(pe);
            },
        };
        match expect_semicolon(tokens, pos) {
            Result::Ok(()) => Result::Ok(Stmt::Print(e)),
            Result::Err(pe) => Result::Err(pe),
        }
    } else {
        let e = match expression(tokens, pos) {
            Result::Ok(e) => e,
            Result::Err(pe) => {
                return Result::Err(pe);
            },
        };
        match expect_semicolon(tokens, pos) {
            Result::Ok(()) => Result::Ok(Stmt::Expr(e)),
            Result::Err(pe) => Result::Err(pe),
        }
    }
}

/// One unfolding of `spec_program` at a non-Eof position whose statement
/// parses: the program is that statement followed by the rest.
proof fn lemma_program_unfold(ts: Seq<TokenView>, i: int, s: StmtView, j: int)
    requires
        wf_tokens(ts),
        0 <= i < ts.len(),
        ts[i].kind != TokenKind::Eof,
        spec_statement(ts, i) == Result::Ok::<(StmtView, int), ParseErrorView>((s, j)),
        i < j <= ts.len(),
    ensures
        spec_program(ts, i) == (match spec_program(ts, j) {
            Result::Ok(rest) => Result::Ok::<Seq<StmtView>, ParseErrorView>(seq![s] + rest),
            Result::Err(e) => Result::Err::<Seq<StmtView>, ParseErrorView>(e),
        }),
{
    assert(clamp_step(ts.len() as int, i, j) == j);
}

/// Parse a whole Eof-terminated token sequence into its statements, or
/// fail with the first parsing error.
#[verifier::rlimit(100)]
pub fn parse(tokens: &Vec<Token>) -> (r: Result<Vec<Stmt>, ParseError>)
    requires
        wf_tokens(tokens.deep_view()),
    ensures
        ({
            let s = spec_program(tokens.deep_view(), 0);
            match r {
                Result::Ok(stmts) => s == Result::Ok::<Seq<StmtView>, ParseErrorView>(
                    stmts.deep_view(),
                ),
                Result::Err(pe) => s == Result::Err::<Seq<StmtView>, ParseErrorView>(pe@),
            }
        }),
{
    let ghost tv = tokens.deep_view();
    let mut stmts: Vec<Stmt> = Vec::new();
    let mut pos: usize = 0;
    #[verifier::loop_isolation(false)]
    loop
        invariant
            wf_tokens(tv),
            tv == tokens.deep_view(),
            0 <= pos < tv.len(),
            ({
                let full = spec_program(tv, 0);
                match spec_program(tv, pos as int) {
                    Result::Ok(rest) => full == Result::Ok::<Seq<StmtView>, ParseErrorView>(
                        stmts.deep_view() + rest,
                    ),
                    Result::Err(e) => full == Result::Err::<Seq<StmtView>, ParseErrorView>(e),
                }
            }),
        decreases tv.len() - pos,
    {
        proof {
            lemma_tokens_len_bound(tokens);
            assert(tv[pos as int] == tokens@[pos as int]@);
        }
        if matches!(tokens[pos].kind, TokenKind::Eof) {
            proof {
                assert(stmts.deep_view() + Seq::<StmtView>::empty() =~= stmts.deep_view());
            }
            return Result::Ok(stmts);
        }
        let ghost istart = pos as int;
        match parse_statement(tokens, &mut pos) {
            Result::Err(pe) => {
                return Result::Err(pe);
            },
            Result::Ok(st) => {
                let ghost stmts0 = stmts.deep_view();
                stmts.push(st);
                proof {
                    lemma_program_unfold(tv, istart, st@, pos as int);
                    assert(stmts.deep_view() =~= stmts0 + seq![st@]);
                    match spec_program(tv, pos as int) {
                        Result::Ok(rest2) => {
                            assert(stmts0 + (seq![st@] + rest2) =~= (stmts0 + seq![st@]) + rest2);
                        },
                        Result::Err(_) => {},
                    }
                }
            },
        }
    }
}

} // verus!
