//! Statements.

use vstd::prelude::*;

use crate::expr::{all_below, MAX_ARITY};
use crate::token::Token;

verus! {

/// A statement. Its parts are named by their index in the store.
#[allow(inconsistent_fields)]
#[derive(Debug)]
pub enum Stmt {
    Expression { expression: usize },
    Print { expression: usize },
    Var { name: Token, initializer: usize },
    Block { statements: Vec<usize> },
    If { condition: usize, then_branch: usize, else_branch: Option<usize> },
    While { condition: usize, body: usize },
    Function { name: Token, params: Vec<Token>, body: Vec<usize> },
    Return { keyword: Token, value: usize },
}

/// The mathematical value of a [`Stmt`].
#[allow(inconsistent_fields)]
pub enum StmtView {
    Expression { expression: usize },
    Print { expression: usize },
    Var { name: Token, initializer: usize },
    Block { statements: Seq<usize> },
    If { condition: usize, then_branch: usize, else_branch: Option<usize> },
    While { condition: usize, body: usize },
    Function { name: Token, params: Seq<Token>, body: Seq<usize> },
    Return { keyword: Token, value: usize },
}

impl View for Stmt {
    type V = StmtView;

    open spec fn view(&self) -> StmtView {
        match *self {
            Stmt::Expression { expression } => StmtView::Expression { expression },
            Stmt::Print { expression } => StmtView::Print { expression },
            Stmt::Var { name, initializer } => StmtView::Var { name, initializer },
            Stmt::Block { statements } => StmtView::Block { statements: statements@ },
            Stmt::If { condition, then_branch, else_branch } => StmtView::If {
                condition,
                then_branch,
                else_branch,
            },
            Stmt::While { condition, body } => StmtView::While { condition, body },
            Stmt::Function { name, params, body } => StmtView::Function {
                name,
                params: params@,
                body: body@,
            },
            Stmt::Return { keyword, value } => StmtView::Return { keyword, value },
        }
    }
}

/// The statement is no declaration.
pub open spec fn plain(s: StmtView) -> bool {
    !(s is Var) && !(s is Function)
}

/// The branches of `s`, if it is an `if`, and its body, if it is a `while`,
/// are no declarations: only a list of statements holds declarations.
pub open spec fn branches_plain(stmts: Seq<StmtView>, s: StmtView) -> bool {
    match s {
        StmtView::If { condition, then_branch, else_branch } => {
            &&& plain(stmts[then_branch as int])
            &&& else_branch matches Some(e) ==> plain(stmts[e as int])
        },
        StmtView::While { condition, body } => plain(stmts[body as int]),
        _ => true,
    }
}

/// Every statement that is part of `s` has an index below `bound`, every
/// expression one below `exprs`, a function has at most [`MAX_ARITY`]
/// parameters, and a list of statements is no longer than a vector can
/// be.
pub open spec fn stmt_below(s: StmtView, bound: int, exprs: int) -> bool {
    match s {
        StmtView::Expression { expression } => expression < exprs,
        StmtView::Print { expression } => expression < exprs,
        StmtView::Var { name, initializer } => initializer < exprs,
        StmtView::Block { statements } => {
            &&& all_below(statements, bound)
            &&& statements.len() <= usize::MAX
        },
        StmtView::If { condition, then_branch, else_branch } => {
            &&& condition < exprs
            &&& then_branch < bound
            &&& else_branch matches Some(e) ==> e < bound
        },
        StmtView::While { condition, body } => condition < exprs && body < bound,
        StmtView::Function { name, params, body } => {
            &&& params.len() <= MAX_ARITY
            &&& all_below(body, bound)
            &&& body.len() <= usize::MAX
        },
        StmtView::Return { keyword, value } => value < exprs,
    }
}

} // verus!
