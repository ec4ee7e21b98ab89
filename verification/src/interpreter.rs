//! The tree-walking evaluator: statements run in order, expressions
//! evaluate to an optional literal value (absent = `nil`), and the first
//! runtime error aborts the remaining statements.
//!
//! The evaluator's behaviour is specified by `spec_run` and the spec
//! functions under it. Number arithmetic follows IEEE-754 binary64
//! semantics (division by zero gives an infinity or NaN, never an error);
//! see the `num` module.

use vstd::prelude::*;
use vstd::string::StringExecFns;

use std::io::Write;

use crate::expr::{Expr, ExprView};
use crate::lexing::{LiteralValue, LiteralView, Loc, LocView, TokenKind, TokenView};
use crate::num;
use crate::num::{add_bits, bits_text, div_bits, eq_bits, ge_bits, gt_bits, le_bits, lt_bits,
    mul_bits, neg_bits, sub_bits};
use crate::stmt::{Stmt, StmtView};

verus! {

/// A runtime error: a type-contract violation during evaluation, carrying
/// the offending operator's text in its message and the operator's source
/// location.
#[derive(Debug)]
pub struct RuntimeError {
    pub message: String,
    pub loc: Loc,
}

/// The mathematical content of a `RuntimeError`.
pub struct RuntimeErrorView {
    pub message: Seq<char>,
    pub loc: LocView,
}

impl View for RuntimeError {
    type V = RuntimeErrorView;

    open spec fn view(&self) -> RuntimeErrorView {
        RuntimeErrorView { message: self.message@, loc: self.loc@ }
    }
}

pub open spec fn unary_number_error(op: TokenView) -> RuntimeErrorView {
    RuntimeErrorView {
        message: "Unary operator "@ + op.lexeme + " expects a numeric operand"@,
        loc: op.loc,
    }
}

pub open spec fn binary_numbers_error(op: TokenView) -> RuntimeErrorView {
    RuntimeErrorView {
        message: "Binary operator "@ + op.lexeme + " expects two numeric operands"@,
        loc: op.loc,
    }
}

pub open spec fn plus_operands_error(op: TokenView) -> RuntimeErrorView {
    RuntimeErrorView {
        message: "Operator "@ + op.lexeme + " expects either two numeric or two string operands"@,
        loc: op.loc,
    }
}

pub open spec fn invalid_binary_error(op: TokenView) -> RuntimeErrorView {
    RuntimeErrorView { message: "Invalid binary operator "@ + op.lexeme, loc: op.loc }
}

pub open spec fn invalid_unary_error(op: TokenView) -> RuntimeErrorView {
    RuntimeErrorView { message: "invalid unary operator?"@, loc: op.loc }
}

/// Truthiness: `nil` and `false` are falsy; every other value, `0` and the
/// empty string included, is truthy.
pub open spec fn spec_is_truthy(v: Option<LiteralView>) -> bool {
    match v {
        Option::None => false,
        Option::Some(LiteralView::Bool(b)) => b,
        Option::Some(_) => true,
    }
}

/// Structural equality across values of any type: `nil` equals only `nil`,
/// mismatched types compare unequal rather than erroring, and numbers
/// compare by IEEE-754 equality (so NaN equals nothing).
pub open spec fn spec_is_equal(lhs: Option<LiteralView>, rhs: Option<LiteralView>) -> bool {
    match (lhs, rhs) {
        (Option::None, Option::None) => true,
        (Option::Some(a), Option::Some(b)) => match (a, b) {
            (LiteralView::Bool(p), LiteralView::Bool(q)) => p == q,
            (LiteralView::Number(m), LiteralView::Number(n)) => eq_bits(m, n),
            (LiteralView::String(s), LiteralView::String(t)) => s == t,
            _ => false,
        },
        _ => false,
    }
}

/// How a value prints: `nil` for the absent value, the boolean text, the
/// standard decimal text for a number, the raw contents for a string.
pub open spec fn spec_stringify(v: Option<LiteralView>) -> Seq<char> {
    match v {
        Option::None => "nil"@,
        Option::Some(LiteralView::Bool(b)) => if b {
            "true"@
        } else {
            "false"@
        },
        Option::Some(LiteralView::Number(n)) => bits_text(n),
        Option::Some(LiteralView::String(s)) => s,
    }
}

/// The two operands as numbers, when both are numbers.
pub open spec fn spec_number_pair(lhs: Option<LiteralView>, rhs: Option<LiteralView>) -> Option<
    (u64, u64),
> {
    match (lhs, rhs) {
        (Option::Some(LiteralView::Number(a)), Option::Some(LiteralView::Number(b))) => Option::Some(
            (a, b),
        ),
        _ => Option::None,
    }
}

/// A binary operator applied to two already-evaluated operands. Equality
/// operators accept any values; the other comparisons and `-` `/` `*`
/// demand two numbers; `+` adds two numbers or concatenates two strings,
/// and fails on every other combination.
pub open spec fn spec_apply_binary(
    op: TokenView,
    lhs: Option<LiteralView>,
    rhs: Option<LiteralView>,
) -> Result<Option<LiteralView>, RuntimeErrorView> {
    if op.kind == TokenKind::BangEqual {
        Result::Ok(Option::Some(LiteralView::Bool(!spec_is_equal(lhs, rhs))))
    } else if op.kind == TokenKind::EqualEqual {
        Result::Ok(Option::Some(LiteralView::Bool(spec_is_equal(lhs, rhs))))
    } else if op.kind == TokenKind::Greater {
        match spec_number_pair(lhs, rhs) {
            Option::Some((a, b)) => Result::Ok(Option::Some(LiteralView::Bool(gt_bits(a, b)))),
            Option::None => Result::Err(binary_numbers_error(op)),
        }
    } else if op.kind == TokenKind::GreaterEqual {
        match spec_number_pair(lhs, rhs) {
            Option::Some((a, b)) => Result::Ok(Option::Some(LiteralView::Bool(ge_bits(a, b)))),
            Option::None => Result::Err(binary_numbers_error(op)),
        }
    } else if op.kind == TokenKind::Less {
        match spec_number_pair(lhs, rhs) {
            Option::Some((a, b)) => Result::Ok(Option::Some(LiteralView::Bool(lt_bits(a, b)))),
            Option::None => Result::Err(binary_numbers_error(op)),
        }
    } else if op.kind == TokenKind::LessEqual {
        match spec_number_pair(lhs, rhs) {
            Option::Some((a, b)) => Result::Ok(Option::Some(LiteralView::Bool(le_bits(a, b)))),
            Option::None => Result::Err(binary_numbers_error(op)),
        }
    } else if op.kind == TokenKind::Minus {
        match spec_number_pair(lhs, rhs) {
            Option::Some((a, b)) => Result::Ok(Option::Some(LiteralView::Number(sub_bits(a, b)))),
            Option::None => Result::Err(binary_numbers_error(op)),
        }
    } else if op.kind == TokenKind::Plus {
        match (lhs, rhs) {
            (Option::Some(LiteralView::Number(a)), Option::Some(LiteralView::Number(b))) => Result::Ok(
                Option::Some(LiteralView::Number(add_bits(a, b))),
            ),
            (Option::Some(LiteralView::String(s)), Option::Some(LiteralView::String(t))) => Result::Ok(
                Option::Some(LiteralView::String(s + t)),
            ),
            _ => Result::Err(plus_operands_error(op)),
        }
    } else if op.kind == TokenKind::Slash {
        match spec_number_pair(lhs, rhs) {
            Option::Some((a, b)) => Result::Ok(Option::Some(LiteralView::Number(div_bits(a, b)))),
            Option::None => Result::Err(binary_numbers_error(op)),
        }
    } else if op.kind == TokenKind::Star {
        match spec_number_pair(lhs, rhs) {
            Option::Some((a, b)) => Result::Ok(Option::Some(LiteralView::Number(mul_bits(a, b)))),
            Option::None => Result::Err(binary_numbers_error(op)),
        }
    } else {
        Result::Err(invalid_binary_error(op))
    }
}

/// Expression evaluation: a direct recursive walk. Operands evaluate left
/// before right, eagerly, and the first error propagates out.
pub open spec fn spec_eval(e: ExprView) -> Result<Option<LiteralView>, RuntimeErrorView>
    decreases e,
{
    match e {
        ExprView::Literal { value } => Result::Ok(value),
        ExprView::Grouping { expr } => spec_eval(*expr),
        ExprView::Unary { op, right } => match spec_eval(*right) {
            Result::Err(re) => Result::Err(re),
            Result::Ok(v) => {
                if op.kind == TokenKind::Minus {
                    match v {
                        Option::Some(LiteralView::Number(n)) => Result::Ok(
                            Option::Some(LiteralView::Number(neg_bits(n))),
                        ),
                        _ => Result::Err(unary_number_error(op)),
                    }
                } else if op.kind == TokenKind::Bang {
                    Result::Ok(Option::Some(LiteralView::Bool(!spec_is_truthy(v))))
                } else {
                    Result::Err(invalid_unary_error(op))
                }
            },
        },
        ExprView::Binary { left, op, right } => match spec_eval(*left) {
            Result::Err(re) => Result::Err(re),
            Result::Ok(lv) => match spec_eval(*right) {
                Result::Err(re) => Result::Err(re),
                Result::Ok(rv) => spec_apply_binary(op, lv, rv),
            },
        },
    }
}

/// One statement: its expression is evaluated; a print statement then
/// prints the value.
pub open spec fn spec_run_stmt(s: StmtView) -> Result<(), RuntimeErrorView> {
    match s {
        StmtView::Expr(e) => match spec_eval(e) {
            Result::Ok(_) => Result::Ok(()),
            Result::Err(re) => Result::Err(re),
        },
        StmtView::Print(e) => match spec_eval(e) {
            Result::Ok(_) => Result::Ok(()),
            Result::Err(re) => Result::Err(re),
        },
    }
}

/// A statement sequence runs in order until the first runtime error.
pub open spec fn spec_run(ss: Seq<StmtView>) -> Result<(), RuntimeErrorView>
    decreases ss.len(),
{
    if ss.len() == 0 {
        Result::Ok(())
    } else {
        match spec_run_stmt(ss[0]) {
            Result::Err(re) => Result::Err(re),
            Result::Ok(_) => spec_run(ss.drop_first()),
        }
    }
}

/// `prefix` + `middle` + `suffix`, for error messages that name an
/// operator's text.
fn message_around(prefix: &str, middle: &str, suffix: &str) -> (r: String)
    ensures
        r@ == prefix@ + middle@ + suffix@,
{
    let mut m = prefix.to_owned();
    m.append(middle);
    m.append(suffix);
    m
}

/// The operand of unary `-`, which must be a number.
fn expect_number(op: crate::lexing::Token, rhs: Option<LiteralValue>) -> (r: Result<
    u64,
    RuntimeError,
>)
    ensures
        ({
            match rhs.deep_view() {
                Option::Some(LiteralView::Number(n)) => r matches Result::Ok(m) && m == n,
                _ => r matches Result::Err(e) && e@ == unary_number_error(op@),
            }
        }),
{
    match rhs {
        Option::Some(LiteralValue::Number(n)) => Result::Ok(n),
        _ => Result::Err(
            RuntimeError {
                message: message_around(
                    "Unary operator ",
                    op.lexeme.as_str(),
                    " expects a numeric operand",
                ),
                loc: op.loc,
            },
        ),
    }
}

/// The operands of a numeric binary operator, which must both be numbers.
fn expect_numbers(
    lhs: Option<LiteralValue>,
    op: crate::lexing::Token,
    rhs: Option<LiteralValue>,
) -> (r: Result<(u64, u64), RuntimeError>)
    ensures
        ({
            match spec_number_pair(lhs.deep_view(), rhs.deep_view()) {
                Option::Some(pair) => r matches Result::Ok(p) && p == pair,
                Option::None => r matches Result::Err(e) && e@ == binary_numbers_error(op@),
            }
        }),
{
    match (lhs, rhs) {
        (Option::Some(LiteralValue::Number(a)), Option::Some(LiteralValue::Number(b))) => Result::Ok(
            (a, b),
        ),
        _ => Result::Err(
            RuntimeError {
                message: message_around(
                    "Binary operator ",
                    op.lexeme.as_str(),
                    " expects two numeric operands",
                ),
                loc: op.loc,
            },
        ),
    }
}

/// Structural equality of two values (see `spec_is_equal`).
pub fn is_equal(lhs: Option<LiteralValue>, rhs: Option<LiteralValue>) -> (r: bool)
    ensures
        r == spec_is_equal(lhs.deep_view(), rhs.deep_view()),
{
    match (lhs, rhs) {
        (Option::None, Option::None) => true,
        (Option::Some(LiteralValue::Bool(p)), Option::Some(LiteralValue::Bool(q))) => p == q,
        (
            Option::Some(LiteralValue::Number(m)),
            Option::Some(LiteralValue::Number(n)),
        ) => num::num_eq(m, n),
        (Option::Some(LiteralValue::String(s)), Option::Some(LiteralValue::String(t))) => s == t,
        _ => false,
    }
}

/// Truthiness of a value (see `spec_is_truthy`).
pub fn is_truthy(expr: Option<LiteralValue>) -> (r: bool)
    ensures
        r == spec_is_truthy(expr.deep_view()),
{
    match expr {
        Option::Some(LiteralValue::Bool(boolean)) => boolean,
        Option::None => false,
        _ => true,
    }
}

/// The printed form of a value (see `spec_stringify`).
pub fn stringify(value: Option<LiteralValue>) -> (r: String)
    ensures
        r@ == spec_stringify(value.deep_view()),
{
    match value {
        Option::None => String::from_str("nil"),
        Option::Some(LiteralValue::Bool(b)) => {
            if b {
                String::from_str("true")
            } else {
                String::from_str("false")
            }
        },
        Option::Some(LiteralValue::Number(n)) => num::num_text(n),
        Option::Some(LiteralValue::String(s)) => s,
    }
}

/// Evaluate one expression tree to a value, or to the first runtime error
/// inside it.
pub fn evaluate(expr: Expr) -> (r: Result<Option<LiteralValue>, RuntimeError>)
    ensures
        ({
            let s = spec_eval(expr@);
            match r {
                Result::Ok(v) => s == Result::Ok::<Option<LiteralView>, RuntimeErrorView>(
                    v.deep_view(),
                ),
                Result::Err(e) => s == Result::Err::<Option<LiteralView>, RuntimeErrorView>(e@),
            }
        }),
    decreases expr,
{
    match expr {
        Expr::Literal { value } => Result::Ok(value),
        Expr::Grouping { expr } => evaluate(*expr),
        Expr::Unary { op, right } => {
            let right_val = match evaluate(*right) {
                Result::Ok(v) => v,
                Result::Err(re) => {
                    return Result::Err(re);
                },
            };
            match op.kind {
                TokenKind::Minus => match expect_number(op, right_val) {
                    Result::Ok(n) => Result::Ok(
                        Option::Some(LiteralValue::Number(num::num_neg(n))),
                    ),
                    Result::Err(re) => Result::Err(re),
                },
                TokenKind::Bang => Result::Ok(
                    Option::Some(LiteralValue::Bool(!is_truthy(right_val))),
                ),
                _ => Result::Err(
                    RuntimeError {
                        message: String::from_str("invalid unary operator?"),
                        loc: op.loc,
                    },
                ),
            }
        },
        Expr::Binary { left, op, right } => {
            let lhs = match evaluate(*left) {
                Result::Ok(v) => v,
                Result::Err(re) => {
                    return Result::Err(re);
                },
            };
            let rhs = match evaluate(*right) {
                Result::Ok(v) => v,
                Result::Err(re) => {
                    return Result::Err(re);
                },
            };
            match op.kind {
                TokenKind::BangEqual => Result::Ok(
                    Option::Some(LiteralValue::Bool(!is_equal(lhs, rhs))),
                ),
                TokenKind::EqualEqual => Result::Ok(
                    Option::Some(LiteralValue::Bool(is_equal(lhs, rhs))),
                ),
                TokenKind::Greater => match expect_numbers(lhs, op, rhs) {
                    Result::Ok((a, b)) => Result::Ok(
                        Option::Some(LiteralValue::Bool(num::num_gt(a, b))),
                    ),
                    Result::Err(re) => Result::Err(re),
                },
                TokenKind::GreaterEqual => match expect_numbers(lhs, op, rhs) {
                    Result::Ok((a, b)) => Result::Ok(
                        Option::Some(LiteralValue::Bool(num::num_ge(a, b))),
                    ),
                    Result::Err(re) => Result::Err(re),
                },
                TokenKind::Less => match expect_numbers(lhs, op, rhs) {
                    Result::Ok((a, b)) => Result::Ok(
                        Option::Some(LiteralValue::Bool(num::num_lt(a, b))),
                    ),
                    Result::Err(re) => Result::Err(re),
                },
                TokenKind::LessEqual => match expect_numbers(lhs, op, rhs) {
                    Result::Ok((a, b)) => Result::Ok(
                        Option::Some(LiteralValue::Bool(num::num_le(a, b))),
                    ),
                    Result::Err(re) => Result::Err(re),
                },
                TokenKind::Minus => match expect_numbers(lhs, op, rhs) {
                    Result::Ok((a, b)) => Result::Ok(
                        Option::Some(LiteralValue::Number(num::num_sub(a, b))),
                    ),
                    Result::Err(re) => Result::Err(re),
                },
                TokenKind::Plus => match (lhs, rhs) {
                    (
                        Option::Some(LiteralValue::Number(a)),
                        Option::Some(LiteralValue::Number(b)),
                    ) => Result::Ok(Option::Some(LiteralValue::Number(num::num_add(a, b)))),
                    (
                        Option::Some(LiteralValue::String(s)),
                        Option::Some(LiteralValue::String(t)),
                    ) => {
                        let mut combined = s;
                        combined.append(t.as_str());
                        Result::Ok(Option::Some(LiteralValue::String(combined)))
                    },
                    (_, _) => Result::Err(
                        RuntimeError {
                            message: message_around(
                                "Operator ",
                                op.lexeme.as_str(),
                                " expects either two numeric or two string operands",
                            ),
                            loc: op.loc,
                        },
                    ),
                },
                TokenKind::Slash => match expect_numbers(lhs, op, rhs) {
                    Result::Ok((a, b)) => Result::Ok(
                        Option::Some(LiteralValue::Number(num::num_div(a, b))),
                    ),
                    Result::Err(re) => Result::Err(re),
                },
                TokenKind::Star => match expect_numbers(lhs, op, rhs) {
                    Result::Ok((a, b)) => Result::Ok(
                        Option::Some(LiteralValue::Number(num::num_mul(a, b))),
                    ),
                    Result::Err(re) => Result::Err(re),
                },
                _ => {
                    let mut m = String::from_str("Invalid binary operator ");
                    m.append(op.lexeme.as_str());
                    Result::Err(RuntimeError { message: m, loc: op.loc })
                },
            }
        },
    }
}

/// Relies on std::io::Stdout (through the writeln macro): prints one line
/// of program output to standard output.
#[verifier::external_body]
fn print_line(text: &str) {
    let mut out = std::io::stdout();
    let _ = writeln!(out, "{}", text);
}

/// Run one statement: evaluate its expression, and print the value when it
/// is a print statement.
fn execute(stmt: Stmt) -> (r: Result<(), RuntimeError>)
    ensures
        r is Ok <==> spec_run_stmt(stmt@) is Ok,
        r matches Result::Err(e) ==> spec_run_stmt(stmt@) == Result::Err::<(), RuntimeErrorView>(
            e@,
        ),
{
    match stmt {
        Stmt::Expr(expr) => match evaluate(expr) {
            Result::Ok(_) => Result::Ok(()),
            Result::Err(re) => Result::Err(re),
        },
        Stmt::Print(expr) => match evaluate(expr) {
            Result::Ok(value) => {
                let text = stringify(value);
                print_line(text.as_str());
                Result::Ok(())
            },
            Result::Err(re) => Result::Err(re),
        },
    }
}

/// Run the statements strictly in order; the first runtime error aborts
/// the remaining statements.
pub fn interpret(statements: Vec<Stmt>) -> (r: Result<(), RuntimeError>)
    ensures
        ({
            let s = spec_run(statements.deep_view());
            match r {
                Result::Ok(()) => s == Result::Ok::<(), RuntimeErrorView>(()),
                Result::Err(e) => s == Result::Err::<(), RuntimeErrorView>(e@),
            }
        }),
{
    let mut remaining = statements;
    loop
        invariant
            spec_run(remaining.deep_view()) == spec_run(statements.deep_view()),
        decreases remaining@.len(),
    {
        if remaining.len() == 0 {
            return Result::Ok(());
        }
        let ghost dv0 = remaining.deep_view();
        let stmt = remaining.remove(0);
        proof {
            assert(stmt@ == dv0[0]);
            assert(remaining.deep_view() =~= dv0.drop_first());
        }
        match execute(stmt) {
            Result::Ok(()) => {},
            Result::Err(re) => {
                return Result::Err(re);
            },
        }
    }
}

} // verus!
