//! The two statement forms of the language: a bare expression statement
//! and a print statement.

use vstd::prelude::*;

use crate::expr::{Expr, ExprView};

verus! {

/// A statement: an expression evaluated for its effect, or a `print`
/// statement that writes its value out.
#[derive(Debug)]
pub enum Stmt {
    Expr(Expr),
    Print(Expr),
}

/// The mathematical content of a `Stmt`.
pub enum StmtView {
    Expr(ExprView),
    Print(ExprView),
}

impl View for Stmt {
    type V = StmtView;

    open spec fn view(&self) -> StmtView {
        match self {
            Stmt::Expr(e) => StmtView::Expr(e@),
            Stmt::Print(e) => StmtView::Print(e@),
        }
    }
}

impl DeepView for Stmt {
    type V = StmtView;

    open spec fn deep_view(&self) -> StmtView {
        self@
    }
}

} // verus!
