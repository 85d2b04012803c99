//! Every use of a variable is resolved once.
//!
//! The nodes of a program form trees, and the store keeps account of where
//! the parts of each node lie. A resolution that starts at a node whose
//! expressions were not resolved before resolves each use in it once, and
//! resolves no use outside it.

use vstd::prelude::*;

use crate::ast::{
    apart_list, chained, floor_of, lemma_expr_below, lemma_fold_member, lemma_lens,
    lemma_stmt_below, top_of, AstView,
};
use crate::expr::{all_below, ExprView};
use crate::resolution::{
    begin_scope, ceiling, declare, declare_params, define, lemma_ceiling_above,
    lemma_ceiling_below, resolve_expr, resolve_exprs, resolve_stmt, resolve_stmts, Resolving,
};
use crate::stmt::StmtView;
use crate::token::Token;

verus! {

/// None of the uses `seen` lies from `low` up to, but without, `high`.
pub open spec fn clear(seen: Set<usize>, low: int, high: int) -> bool {
    forall|k: usize| #[trigger] seen.contains(k) ==> !(low <= k < high)
}

/// The uses `after` are the uses `before` and some from `low` up to, but
/// without, `high`.
pub open spec fn added(before: Set<usize>, after: Set<usize>, low: int, high: int) -> bool {
    forall|k: usize| #[trigger] after.contains(k) ==> before.contains(k) || low <= k < high
}

/// Each of the expressions `ids` lies, with its parts, behind all that
/// come before it.
pub open spec fn ordered(lows: Seq<usize>, ids: Seq<usize>) -> bool {
    forall|i: int, j: int|
        0 <= i < j < ids.len() ==> #[trigger] ids[i] < lows[#[trigger] ids[j] as int]
}

/// Expressions that lie each behind the one before lie behind all that
/// come before, and behind the first.
pub proof fn lemma_chain_order(ast: AstView, first: usize, ids: Seq<usize>, i: int, j: int)
    requires
        ast.wf(),
        all_below(ids, ast.exprs.len() as int),
        chained(ast.lows, first, ids),
        0 <= i <= j < ids.len(),
    ensures
        first < ast.lows[ids[j] as int],
        i < j ==> ids[i] < ast.lows[ids[j] as int],
    decreases j,
{
    if j > 0 {
        lemma_chain_order(ast, first, ids, if i < j {
            i
        } else {
            j - 1
        }, j - 1);
        lemma_expr_below(ast, ids[j - 1] as int);
        assert(ids[j - 1] < ast.lows[ids[j] as int]);
    } else {
        assert(first < ast.lows[ids[0] as int]);
    }
}

/// Declaring parameters resolves no use.
pub proof fn lemma_declare_params_account(params: Seq<Token>, from: nat, s: Resolving)
    ensures
        declare_params(params, from, s).seen == s.seen,
        declare_params(params, from, s).twice == s.twice,
    decreases params.len() - from,
{
    if from < params.len() {
        let name = params[from as int];
        lemma_declare_params_account(params, from + 1, define(declare(s, name), name.lexeme@));
    }
}

/// An expression none of whose parts was resolved before is resolved
/// with each use in it resolved once, and no use outside it is resolved.
pub proof fn lemma_once_expr(ast: AstView, id: usize, s: Resolving)
    requires
        ast.wf(),
        id < ast.exprs.len(),
        !s.twice,
        clear(s.seen, ast.lows[id as int] as int, id + 1),
    ensures
        !resolve_expr(ast, id, s).twice,
        added(s.seen, resolve_expr(ast, id, s).seen, ast.lows[id as int] as int, id + 1),
    decreases 3 * (id + 1), 1nat,
{
    lemma_expr_below(ast, id as int);
    match ast.exprs[id as int] {
        ExprView::Binary { left, operator, right } => {
            lemma_once_pair(ast, left, right, s);
            lemma_expr_below(ast, right as int);
        },
        ExprView::Grouping { expression } => {
            lemma_once_expr(ast, expression, s);
        },
        ExprView::Literal { value } => {},
        ExprView::Unary { operator, right } => {
            lemma_once_expr(ast, right, s);
        },
        ExprView::Variable { name } => {},
        ExprView::Assign { name, value } => {
            lemma_once_expr(ast, value, s);
        },
        ExprView::Logical { left, operator, right } => {
            lemma_once_pair(ast, left, right, s);
            lemma_expr_below(ast, right as int);
        },
        ExprView::Call { callee, paren, arguments } => {
            lemma_once_call(ast, id, s);
        },
    }
}

/// A call none of whose parts was resolved before: each use in the callee
/// and in the arguments is resolved once.
pub proof fn lemma_once_call(ast: AstView, id: usize, s: Resolving)
    requires
        ast.wf(),
        id < ast.exprs.len(),
        ast.exprs[id as int] is Call,
        !s.twice,
        clear(s.seen, ast.lows[id as int] as int, id + 1),
    ensures
        !resolve_expr(ast, id, s).twice,
        added(s.seen, resolve_expr(ast, id, s).seen, ast.lows[id as int] as int, id + 1),
    decreases 3 * (id + 1), 0nat,
{
    lemma_expr_below(ast, id as int);
    match ast.exprs[id as int] {
        ExprView::Call { callee, paren, arguments } => {
            lemma_ceiling_below(arguments, id as int);
            lemma_expr_below(ast, callee as int);
            let mid = resolve_expr(ast, callee, s);
            lemma_once_expr(ast, callee, s);
            assert forall|i: int, j: int| 0 <= i < j < arguments.len() implies #[trigger] arguments[i]
                < ast.lows[#[trigger] arguments[j] as int] by {
                lemma_chain_order(ast, callee, arguments, i, j);
            }
            assert forall|k: int| 0 <= k < arguments.len() implies callee + 1 <= ast.lows[
                #[trigger] arguments[k] as int
            ] && arguments[k] < id by {
                lemma_chain_order(ast, callee, arguments, k, k);
            }
            lemma_once_exprs(ast, arguments, 0, mid, callee + 1, id as int);
            assert(resolve_expr(ast, id, s) == resolve_exprs(ast, arguments, 0, mid));
        },
        _ => {},
    }
}

/// Two expressions, the second behind the first, none of whose parts was
/// resolved before: each use in them is resolved once.
pub proof fn lemma_once_pair(ast: AstView, left: usize, right: usize, s: Resolving)
    requires
        ast.wf(),
        left < ast.exprs.len(),
        right < ast.exprs.len(),
        left < ast.lows[right as int],
        !s.twice,
        clear(s.seen, ast.lows[left as int] as int, right + 1),
    ensures
        ({
            let r = resolve_expr(ast, right, resolve_expr(ast, left, s));
            !r.twice && added(s.seen, r.seen, ast.lows[left as int] as int, right + 1)
        }),
    decreases 3 * ((if left > right {
        left
    } else {
        right
    }) + 1), 2nat,
{
    lemma_expr_below(ast, left as int);
    lemma_expr_below(ast, right as int);
    lemma_once_expr(ast, left, s);
    lemma_once_expr(ast, right, resolve_expr(ast, left, s));
}

/// Expressions that lie one behind the other, from `low` up to `high`,
/// none of whose parts was resolved before: each use in them is resolved
/// once.
pub proof fn lemma_once_exprs(
    ast: AstView,
    ids: Seq<usize>,
    from: nat,
    s: Resolving,
    low: int,
    high: int,
)
    requires
        ast.wf(),
        all_below(ids, ast.exprs.len() as int),
        ordered(ast.lows, ids),
        forall|k: int| from <= k < ids.len() ==> low <= ast.lows[#[trigger] ids[k] as int] && ids[k] < high,
        !s.twice,
        clear(s.seen, low, high),
    ensures
        !resolve_exprs(ast, ids, from, s).twice,
        added(s.seen, resolve_exprs(ast, ids, from, s).seen, low, high),
    decreases 3 * ceiling(ids), ids.len() - from + 1,
{
    if from < ids.len() {
        lemma_ceiling_above(ids, from as int);
        let id = ids[from as int];
        let mid = resolve_expr(ast, id, s);
        lemma_expr_below(ast, id as int);
        lemma_once_expr(ast, id, s);
        assert forall|k: int| from + 1 <= k < ids.len() implies id + 1 <= ast.lows[
            #[trigger] ids[k] as int
        ] && ids[k] < high by {
            assert(ids[from as int] < ast.lows[ids[k] as int]);
        }
        lemma_once_exprs(ast, ids, from + 1, mid, id + 1, high);
    }
}

/// A statement none of whose expressions was resolved before is resolved
/// with each use in it resolved once, and no use outside it is resolved.
pub proof fn lemma_once_stmt(ast: AstView, id: usize, s: Resolving)
    requires
        ast.wf(),
        id < ast.stmts.len(),
        !s.twice,
        clear(s.seen, ast.ranges[id as int].0 as int, ast.ranges[id as int].1 as int),
    ensures
        !resolve_stmt(ast, id, s).twice,
        added(
            s.seen,
            resolve_stmt(ast, id, s).seen,
            ast.ranges[id as int].0 as int,
            ast.ranges[id as int].1 as int,
        ),
    decreases 3 * (id + 1), 0nat,
{
    lemma_stmt_below(ast, id as int);
    lemma_lens(ast);
    match ast.stmts[id as int] {
        StmtView::Expression { expression } => {
            lemma_once_expr(ast, expression, s);
        },
        StmtView::Print { expression } => {
            lemma_once_expr(ast, expression, s);
        },
        StmtView::Var { name, initializer } => {
            lemma_once_expr(ast, initializer, declare(s, name));
        },
        StmtView::Block { statements } => {
            lemma_ceiling_below(statements, id as int);
            lemma_once_list(ast, statements, s);
            lemma_once_stmts(ast, statements, 0, begin_scope(s));
        },
        StmtView::If { condition, then_branch, else_branch } => {
            let tested = resolve_expr(ast, condition, s);
            let then = resolve_stmt(ast, then_branch, tested);
            lemma_expr_below(ast, condition as int);
            lemma_stmt_below(ast, then_branch as int);
            lemma_once_expr(ast, condition, s);
            lemma_once_stmt(ast, then_branch, tested);
            match else_branch {
                Some(e) => {
                    lemma_stmt_below(ast, e as int);
                    lemma_once_stmt(ast, e, then);
                },
                None => {},
            }
        },
        StmtView::While { condition, body } => {
            let tested = resolve_expr(ast, condition, s);
            lemma_expr_below(ast, condition as int);
            lemma_stmt_below(ast, body as int);
            lemma_once_expr(ast, condition, s);
            lemma_once_stmt(ast, body, tested);
        },
        StmtView::Function { name, params, body } => {
            lemma_ceiling_below(body, id as int);
            let opened = begin_scope(define(declare(s, name), name.lexeme@));
            lemma_declare_params_account(params, 0, opened);
            lemma_once_list(ast, body, s);
            lemma_once_stmts(ast, body, 0, declare_params(params, 0, opened));
        },
        StmtView::Return { keyword, value } => {
            lemma_once_expr(ast, value, s);
        },
    }
}

/// If none of the expressions between the lowest start and the highest
/// end of the statements `ids` was resolved, none of any of them was.
pub proof fn lemma_once_list(ast: AstView, ids: Seq<usize>, s: Resolving)
    requires
        clear(s.seen, floor_of(ast.ranges, ids, 0) as int, top_of(ast.ranges, ids, 0) as int),
    ensures
        forall|k: int|
            0 <= k < ids.len() ==> clear(
                s.seen,
                ast.ranges[#[trigger] ids[k] as int].0 as int,
                ast.ranges[ids[k] as int].1 as int,
            ),
{
    assert forall|k: int| 0 <= k < ids.len() implies clear(
        s.seen,
        ast.ranges[#[trigger] ids[k] as int].0 as int,
        ast.ranges[ids[k] as int].1 as int,
    ) by {
        lemma_fold_member(ast.ranges, ids, 0, k);
    }
}

/// Statements no two of which have an expression in common, and none of
/// whose expressions was resolved before: each use in them is resolved
/// once, and what is resolved lies between their lowest start and their
/// highest end.
pub proof fn lemma_once_stmts(ast: AstView, ids: Seq<usize>, from: nat, s: Resolving)
    requires
        ast.wf(),
        all_below(ids, ast.stmts.len() as int),
        apart_list(ast.ranges, ids),
        !s.twice,
        forall|k: int|
            from <= k < ids.len() ==> clear(
                s.seen,
                ast.ranges[#[trigger] ids[k] as int].0 as int,
                ast.ranges[ids[k] as int].1 as int,
            ),
    ensures
        !resolve_stmts(ast, ids, from, s).twice,
        added(
            s.seen,
            resolve_stmts(ast, ids, from, s).seen,
            floor_of(ast.ranges, ids, from as int) as int,
            top_of(ast.ranges, ids, from as int) as int,
        ),
    decreases 3 * ceiling(ids), ids.len() - from + 1,
{
    if from < ids.len() {
        lemma_ceiling_above(ids, from as int);
        let id = ids[from as int];
        let mid = resolve_stmt(ast, id, s);
        lemma_once_stmt(ast, id, s);
        assert forall|k: int| from + 1 <= k < ids.len() implies clear(
            mid.seen,
            ast.ranges[#[trigger] ids[k] as int].0 as int,
            ast.ranges[ids[k] as int].1 as int,
        ) by {
            assert(clear(s.seen, ast.ranges[ids[k] as int].0 as int, ast.ranges[ids[k] as int].1 as int));
            assert(crate::ast::apart(ast.ranges[ids[from as int] as int], ast.ranges[ids[k] as int]));
        }
        lemma_once_stmts(ast, ids, from + 1, mid);
    }
}

} // verus!
