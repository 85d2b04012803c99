//! Expressions.
//!
//! The nodes of a program live in an [`Ast`](crate::ast::Ast); a node names
//! its parts by their index there. The index of a node is its identity.

use vstd::prelude::*;

use crate::token::{Literal, Token};

verus! {

/// The largest number of arguments of a call, and of parameters of a
/// function.
pub const MAX_ARITY: usize = 255;

/// An expression. Its parts are named by their index in the store.
#[allow(inconsistent_fields)]
#[derive(Debug)]
pub enum Expr {
    Binary { left: usize, operator: Token, right: usize },
    Grouping { expression: usize },
    Literal { value: Literal },
    Unary { operator: Token, right: usize },
    Variable { name: Token },
    Assign { name: Token, value: usize },
    Logical { left: usize, operator: Token, right: usize },
    Call { callee: usize, paren: Token, arguments: Vec<usize> },
}

/// The mathematical value of an [`Expr`].
#[allow(inconsistent_fields)]
pub enum ExprView {
    Binary { left: usize, operator: Token, right: usize },
    Grouping { expression: usize },
    Literal { value: Literal },
    Unary { operator: Token, right: usize },
    Variable { name: Token },
    Assign { name: Token, value: usize },
    Logical { left: usize, operator: Token, right: usize },
    Call { callee: usize, paren: Token, arguments: Seq<usize> },
}

impl View for Expr {
    type V = ExprView;

    open spec fn view(&self) -> ExprView {
        match *self {
            Expr::Binary { left, operator, right } => ExprView::Binary { left, operator, right },
            Expr::Grouping { expression } => ExprView::Grouping { expression },
            Expr::Literal { value } => ExprView::Literal { value },
            Expr::Unary { operator, right } => ExprView::Unary { operator, right },
            Expr::Variable { name } => ExprView::Variable { name },
            Expr::Assign { name, value } => ExprView::Assign { name, value },
            Expr::Logical { left, operator, right } => ExprView::Logical { left, operator, right },
            Expr::Call { callee, paren, arguments } => ExprView::Call {
                callee,
                paren,
                arguments: arguments@,
            },
        }
    }
}

/// Every index in `ids` lies below `bound`.
pub open spec fn all_below(ids: Seq<usize>, bound: int) -> bool {
    forall|k: int| 0 <= k < ids.len() ==> #[trigger] ids[k] < bound
}

/// Every part of the expression has an index below `bound`, and a call has
/// at most [`MAX_ARITY`] arguments.
pub open spec fn expr_below(e: ExprView, bound: int) -> bool {
    match e {
        ExprView::Binary { left, operator, right } => left < bound && right < bound,
        ExprView::Grouping { expression } => expression < bound,
        ExprView::Literal { value } => true,
        ExprView::Unary { operator, right } => right < bound,
        ExprView::Variable { name } => true,
        ExprView::Assign { name, value } => value < bound,
        ExprView::Logical { left, operator, right } => left < bound && right < bound,
        ExprView::Call { callee, paren, arguments } => {
            &&& callee < bound
            &&& arguments.len() <= MAX_ARITY
            &&& all_below(arguments, bound)
        },
    }
}

} // verus!
