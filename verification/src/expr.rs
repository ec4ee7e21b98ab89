//! The expression tree the parser builds: a recursive variant with
//! exclusive ownership of its children, and its pretty-printed
//! parenthesized prefix form.

use vstd::prelude::*;
use vstd::string::StringExecFns;

use crate::lexing::{LiteralValue, LiteralView, Token, TokenView};
use crate::num::bits_text;

verus! {

/// An expression: a binary operation, a parenthesized group, a literal
/// (`nil` being the absent literal), or a prefix unary operation. Operator
/// tokens are kept in the tree for later diagnostic reporting.
#[derive(Debug)]
pub enum Expr {
    Binary { left: Box<Expr>, op: Token, right: Box<Expr> },
    Grouping { expr: Box<Expr> },
    Literal { value: Option<LiteralValue> },
    Unary { op: Token, right: Box<Expr> },
}

/// The mathematical content of an `Expr`.
pub enum ExprView {
    Binary { left: Box<ExprView>, op: TokenView, right: Box<ExprView> },
    Grouping { expr: Box<ExprView> },
    Literal { value: Option<LiteralView> },
    Unary { op: TokenView, right: Box<ExprView> },
}

/// The view of an expression tree, node by node.
pub open spec fn view_expr(e: Expr) -> ExprView
    decreases e,
{
    match e {
        Expr::Binary { left, op, right } => ExprView::Binary {
            left: Box::new(view_expr(*left)),
            op: op@,
            right: Box::new(view_expr(*right)),
        },
        Expr::Grouping { expr } => ExprView::Grouping { expr: Box::new(view_expr(*expr)) },
        Expr::Literal { value } => ExprView::Literal {
            value: match value {
                Option::None => Option::None,
                Option::Some(v) => Option::Some(v@),
            },
        },
        Expr::Unary { op, right } => ExprView::Unary { op: op@, right: Box::new(view_expr(*right)) },
    }
}

impl View for Expr {
    type V = ExprView;

    open spec fn view(&self) -> ExprView {
        view_expr(*self)
    }
}

impl DeepView for Expr {
    type V = ExprView;

    open spec fn deep_view(&self) -> ExprView {
        view_expr(*self)
    }
}

/// The documented parenthesized prefix notation: a binary node prints as
/// `(op left right)`, a group as `(group inner)`, a unary node as
/// `(op operand)`, and a literal as its value (`nil` when absent, the
/// standard decimal text for a number, the raw contents for a string).
pub open spec fn expr_text(e: ExprView) -> Seq<char>
    decreases e,
{
    match e {
        ExprView::Binary { left, op, right } => "("@ + op.lexeme + " "@ + expr_text(*left) + " "@
            + expr_text(*right) + ")"@,
        ExprView::Grouping { expr } => "("@ + "group"@ + " "@ + expr_text(*expr) + ")"@,
        ExprView::Literal { value: Option::None } => "nil"@,
        ExprView::Literal { value: Option::Some(LiteralView::Bool(b)) } => if b {
            "true"@
        } else {
            "false"@
        },
        ExprView::Literal { value: Option::Some(LiteralView::Number(n)) } => bits_text(n),
        ExprView::Literal { value: Option::Some(LiteralView::String(s)) } => s,
        ExprView::Unary { op, right } => "("@ + op.lexeme + " "@ + expr_text(*right) + ")"@,
    }
}

/// `(name item1 ... itemN)`: the prefix form with `name` at the head and
/// each item's text after one space.
pub open spec fn spec_parenthesize(name: Seq<char>, es: Seq<ExprView>) -> Seq<char> {
    "("@ + name + parenthesize_items(es) + ")"@
}

pub open spec fn parenthesize_items(es: Seq<ExprView>) -> Seq<char>
    decreases es.len(),
{
    if es.len() == 0 {
        Seq::empty()
    } else {
        " "@ + expr_text(es[0]) + parenthesize_items(es.drop_first())
    }
}

proof fn lemma_parenthesize_items_push(es: Seq<ExprView>, e: ExprView)
    ensures
        parenthesize_items(es.push(e)) == parenthesize_items(es) + " "@ + expr_text(e),
    decreases es.len(),
{
    if es.len() == 0 {
        assert(es.push(e).drop_first() =~= Seq::<ExprView>::empty());
        assert(es.push(e)[0] == e);
        assert(parenthesize_items(Seq::<ExprView>::empty()) == Seq::<char>::empty());
        assert(parenthesize_items(es.push(e)) == " "@ + expr_text(e) + Seq::<char>::empty());
        assert(parenthesize_items(es.push(e)) =~= parenthesize_items(es) + " "@ + expr_text(e));
    } else {
        lemma_parenthesize_items_push(es.drop_first(), e);
        assert(es.push(e).drop_first() =~= es.drop_first().push(e));
        assert(es.push(e)[0] == es[0]);
        assert(parenthesize_items(es.push(e)) =~= parenthesize_items(es) + " "@ + expr_text(e));
    }
}

impl Expr {
    /// This expression in the parenthesized prefix notation.
    pub fn to_text(&self) -> (r: String)
        ensures
            r@ == expr_text(self@),
        decreases *self,
    {
        match self {
            Expr::Binary { left, op, right } => {
                let mut buf = String::from_str("(");
                buf.append(op.lexeme.as_str());
                buf.append(" ");
                let left_text = left.to_text();
                buf.append(left_text.as_str());
                buf.append(" ");
                let right_text = right.to_text();
                buf.append(right_text.as_str());
                buf.append(")");
                buf
            },
            Expr::Grouping { expr } => {
                let mut buf = String::from_str("(");
                buf.append("group");
                buf.append(" ");
                let inner_text = expr.to_text();
                buf.append(inner_text.as_str());
                buf.append(")");
                buf
            },
            Expr::Literal { value: Option::None } => String::from_str("nil"),
            Expr::Literal { value: Option::Some(LiteralValue::Bool(b)) } => {
                if *b {
                    String::from_str("true")
                } else {
                    String::from_str("false")
                }
            },
            Expr::Literal { value: Option::Some(LiteralValue::Number(n)) } => crate::num::num_text(
                *n,
            ),
            Expr::Literal { value: Option::Some(LiteralValue::String(s)) } => s.clone(),
            Expr::Unary { op, right } => {
                let mut buf = String::from_str("(");
                buf.append(op.lexeme.as_str());
                buf.append(" ");
                let right_text = right.to_text();
                buf.append(right_text.as_str());
                buf.append(")");
                buf
            },
        }
    }
}

/// `(name item1 ... itemN)`: the prefix form of several expressions under
/// one head, as the tree printer uses for its nodes.
pub fn parenthesize(name: &str, exprs: &[&Expr]) -> (r: String)
    ensures
        r@ == spec_parenthesize(name@, exprs.deep_view()),
{
    let ghost dv = exprs.deep_view();
    let mut buf = String::from_str("(");
    buf.append(name);
    let n = exprs.len();
    let mut i: usize = 0;
    while i < n
        invariant
            0 <= i <= n,
            n == exprs@.len(),
            dv == exprs.deep_view(),
            buf@ == "("@ + name@ + parenthesize_items(dv.take(i as int)),
        decreases n - i,
    {
        proof {
            assert(dv[i as int] == exprs@[i as int]@);
        }
        buf.append(" ");
        let item_text = exprs[i].to_text();
        buf.append(item_text.as_str());
        proof {
            assert(dv.take(i + 1) =~= dv.take(i as int).push(dv[i as int]));
            lemma_parenthesize_items_push(dv.take(i as int), dv[i as int]);
        }
        i = i + 1;
    }
    buf.append(")");
    proof {
        assert(dv.take(n as int) =~= dv);
    }
    buf
}

} // verus!
