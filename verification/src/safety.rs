//! When the distances that the resolver found lead to the variables.
//!
//! A stack of sets of names stands for the local environments around a
//! place in a program, the outermost first: each set holds the names that
//! are bound there. A piece of the program is safe for such a stack if
//! every use of a variable in it that has a distance points at a set of
//! the stack, and every read at a set that holds the variable's name.

use vstd::prelude::*;

use crate::ast::{lemma_expr_below, lemma_stmt_below, AstView};
use crate::expr::{all_below, ExprView};
use crate::resolution::{ceiling, lemma_ceiling_above, lemma_ceiling_below};
use crate::stmt::{plain, StmtView};
use crate::token::Token;

verus! {

/// The names bound in each of the local environments around a place, the
/// outermost first.
pub type Names = Seq<Set<Seq<char>>>;

/// What is known of the uses of variables in a program.
pub struct Table {
    /// The distances found, by expression.
    pub locals: Map<usize, usize>,
    /// The uses that are resolved, with a distance or without.
    pub seen: Set<usize>,
}

impl Table {
    /// `later` says of every use that this table has resolved what this
    /// table says of it.
    pub open spec fn kept_by(self, later: Table) -> bool {
        &&& self.seen.subset_of(later.seen)
        &&& forall|k: usize| #[trigger]
            self.seen.contains(k) ==> {
                &&& self.locals.contains_key(k) == later.locals.contains_key(k)
                &&& self.locals.contains_key(k) ==> self.locals[k] == later.locals[k]
            }
    }
}

/// The stack with `name` added to its innermost set, if it has one.
pub open spec fn with_name(t: Names, name: Seq<char>) -> Names {
    if t.len() == 0 {
        t
    } else {
        t.update(t.len() - 1, t.last().insert(name))
    }
}

/// `u` is a stack like `t` with every name of `t` in its place.
pub open spec fn within(t: Names, u: Names) -> bool {
    &&& t.len() == u.len()
    &&& forall|i: int| 0 <= i < t.len() ==> (#[trigger] t[i]).subset_of(u[i])
}

/// The names of the parameters `params`.
pub open spec fn params_names(params: Seq<Token>) -> Set<Seq<char>> {
    Set::new(|name: Seq<char>| exists|i: int| 0 <= i < params.len() && (#[trigger] params[i]).lexeme@ == name)
}

/// The use `id` of the variable `name` is resolved, and if it has a
/// distance, the distance leads to a set of the stack: for a read, to one
/// that holds `name`.
pub open spec fn use_safe(table: Table, id: usize, name: Seq<char>, t: Names, read: bool) -> bool {
    &&& table.seen.contains(id)
    &&& table.locals.contains_key(id) ==> {
        &&& table.locals[id] < t.len()
        &&& read ==> t[t.len() - 1 - table.locals[id]].contains(name)
    }
}

/// The expression `id` is safe for the stack `t`.
pub open spec fn safe_expr(ast: AstView, table: Table, id: usize, t: Names) -> bool
    decreases 3 * (id + 1), 0nat,
    when ast.wf() && id < ast.exprs.len()
{
    proof {
        lemma_expr_below(ast, id as int);
    }
    match ast.exprs[id as int] {
        ExprView::Binary { left, operator, right } => safe_expr(ast, table, left, t) && safe_expr(
            ast,
            table,
            right,
            t,
        ),
        ExprView::Grouping { expression } => safe_expr(ast, table, expression, t),
        ExprView::Literal { value } => true,
        ExprView::Unary { operator, right } => safe_expr(ast, table, right, t),
        ExprView::Variable { name } => use_safe(table, id, name.lexeme@, t, true),
        ExprView::Assign { name, value } => safe_expr(ast, table, value, t) && use_safe(
            table,
            id,
            name.lexeme@,
            t,
            false,
        ),
        ExprView::Logical { left, operator, right } => safe_expr(ast, table, left, t) && safe_expr(
            ast,
            table,
            right,
            t,
        ),
        ExprView::Call { callee, paren, arguments } => {
            proof {
                lemma_ceiling_below(arguments, id as int);
            }
            safe_expr(ast, table, callee, t) && safe_exprs(ast, table, arguments, 0, t)
        },
    }
}

/// The expressions `ids[from..]` are safe for the stack `t`.
pub open spec fn safe_exprs(ast: AstView, table: Table, ids: Seq<usize>, from: nat, t: Names)
    -> bool
    decreases 3 * ceiling(ids), ids.len() - from + 1,
    when ast.wf() && all_below(ids, ast.exprs.len() as int)
{
    if from >= ids.len() {
        true
    } else {
        proof {
            lemma_ceiling_above(ids, from as int);
        }
        safe_expr(ast, table, ids[from as int], t) && safe_exprs(ast, table, ids, from + 1, t)
    }
}

/// The stack behind the statement `s`: with the name that `s` declares, if
/// it declares one.
pub open spec fn declared_by(s: StmtView, t: Names) -> Names {
    match s {
        StmtView::Var { name, initializer } => with_name(t, name.lexeme@),
        StmtView::Function { name, params, body } => with_name(t, name.lexeme@),
        _ => t,
    }
}

/// The statement `id` is safe for the stack `t`. A branch of an `if` and
/// the body of a `while` must be no declarations.
pub open spec fn safe_stmt(ast: AstView, table: Table, id: usize, t: Names) -> bool
    decreases 3 * (id + 1), 0nat,
    when ast.wf() && id < ast.stmts.len()
{
    proof {
        lemma_stmt_below(ast, id as int);
    }
    match ast.stmts[id as int] {
        StmtView::Expression { expression } => safe_expr(ast, table, expression, t),
        StmtView::Print { expression } => safe_expr(ast, table, expression, t),
        StmtView::Var { name, initializer } => safe_expr(ast, table, initializer, t),
        StmtView::Block { statements } => {
            proof {
                lemma_ceiling_below(statements, id as int);
            }
            safe_stmts(ast, table, statements, 0, t.push(Set::empty()))
        },
        StmtView::If { condition, then_branch, else_branch } => {
            &&& safe_expr(ast, table, condition, t)
            &&& plain(ast.stmts[then_branch as int])
            &&& safe_stmt(ast, table, then_branch, t)
            &&& match else_branch {
                Some(e) => plain(ast.stmts[e as int]) && safe_stmt(ast, table, e, t),
                None => true,
            }
        },
        StmtView::While { condition, body } => {
            &&& safe_expr(ast, table, condition, t)
            &&& plain(ast.stmts[body as int])
            &&& safe_stmt(ast, table, body, t)
        },
        StmtView::Function { name, params, body } => {
            proof {
                lemma_ceiling_below(body, id as int);
            }
            safe_stmts(ast, table, body, 0, with_name(t, name.lexeme@).push(params_names(params)))
        },
        StmtView::Return { keyword, value } => safe_expr(ast, table, value, t),
    }
}

/// The statements `ids[from..]`, run in order, are safe for the stack `t`.
pub open spec fn safe_stmts(ast: AstView, table: Table, ids: Seq<usize>, from: nat, t: Names)
    -> bool
    decreases 3 * ceiling(ids), ids.len() - from + 1,
    when ast.wf() && all_below(ids, ast.stmts.len() as int)
{
    if from >= ids.len() {
        true
    } else {
        proof {
            lemma_ceiling_above(ids, from as int);
        }
        safe_stmt(ast, table, ids[from as int], t) && safe_stmts(
            ast,
            table,
            ids,
            from + 1,
            declared_by(ast.stmts[ids[from as int] as int], t),
        )
    }
}

/// A name added to both stacks keeps one within the other.
pub proof fn lemma_within_with_name(t: Names, u: Names, name: Seq<char>)
    requires
        within(t, u),
    ensures
        within(with_name(t, name), with_name(u, name)),
{
    if t.len() > 0 {
        let a = with_name(t, name);
        let b = with_name(u, name);
        assert forall|i: int| 0 <= i < a.len() implies (#[trigger] a[i]).subset_of(b[i]) by {
            assert(t[i].subset_of(u[i]));
        }
    }
}

/// A set put on both stacks keeps one within the other.
pub proof fn lemma_within_push(t: Names, u: Names, s: Set<Seq<char>>)
    requires
        within(t, u),
    ensures
        within(t.push(s), u.push(s)),
{
    let a = t.push(s);
    let b = u.push(s);
    assert forall|i: int| 0 <= i < a.len() implies (#[trigger] a[i]).subset_of(b[i]) by {
        if i < t.len() {
            assert(t[i].subset_of(u[i]));
        }
    }
}

/// A declaration behind both stacks keeps one within the other.
pub proof fn lemma_within_declared(s: StmtView, t: Names, u: Names)
    requires
        within(t, u),
    ensures
        within(declared_by(s, t), declared_by(s, u)),
{
    match s {
        StmtView::Var { name, initializer } => lemma_within_with_name(t, u, name.lexeme@),
        StmtView::Function { name, params, body } => lemma_within_with_name(t, u, name.lexeme@),
        _ => {},
    }
}

/// A safe expression stays safe when the program gets more nodes, the
/// table more uses, and the sets of the stack more names.
pub proof fn lemma_safe_expr_carries(
    ast: AstView,
    later: AstView,
    table: Table,
    more: Table,
    id: usize,
    t: Names,
    u: Names,
)
    requires
        ast.wf(),
        later.wf(),
        later.extends(ast),
        table.kept_by(more),
        within(t, u),
        id < ast.exprs.len(),
        safe_expr(ast, table, id, t),
    ensures
        safe_expr(later, more, id, u),
    decreases 3 * (id + 1), 0nat,
{
    lemma_expr_below(ast, id as int);
    assert(later.exprs[id as int] == ast.exprs[id as int]);
    match ast.exprs[id as int] {
        ExprView::Binary { left, operator, right } => {
            lemma_safe_expr_carries(ast, later, table, more, left, t, u);
            lemma_safe_expr_carries(ast, later, table, more, right, t, u);
        },
        ExprView::Grouping { expression } => {
            lemma_safe_expr_carries(ast, later, table, more, expression, t, u);
        },
        ExprView::Literal { value } => {},
        ExprView::Unary { operator, right } => {
            lemma_safe_expr_carries(ast, later, table, more, right, t, u);
        },
        ExprView::Variable { name } => {
            assert(table.seen.contains(id));
            if table.locals.contains_key(id) {
                assert(t[t.len() - 1 - table.locals[id]].subset_of(u[u.len() - 1 - table.locals[id]]));
            }
        },
        ExprView::Assign { name, value } => {
            lemma_safe_expr_carries(ast, later, table, more, value, t, u);
            assert(table.seen.contains(id));
        },
        ExprView::Logical { left, operator, right } => {
            lemma_safe_expr_carries(ast, later, table, more, left, t, u);
            lemma_safe_expr_carries(ast, later, table, more, right, t, u);
        },
        ExprView::Call { callee, paren, arguments } => {
            lemma_ceiling_below(arguments, id as int);
            lemma_safe_expr_carries(ast, later, table, more, callee, t, u);
            lemma_safe_exprs_carries(ast, later, table, more, arguments, 0, t, u);
        },
    }
}

/// Safe expressions stay safe when the program gets more nodes, the table
/// more uses, and the sets of the stack more names.
pub proof fn lemma_safe_exprs_carries(
    ast: AstView,
    later: AstView,
    table: Table,
    more: Table,
    ids: Seq<usize>,
    from: nat,
    t: Names,
    u: Names,
)
    requires
        ast.wf(),
        later.wf(),
        later.extends(ast),
        table.kept_by(more),
        within(t, u),
        all_below(ids, ast.exprs.len() as int),
        safe_exprs(ast, table, ids, from, t),
    ensures
        safe_exprs(later, more, ids, from, u),
    decreases 3 * ceiling(ids), ids.len() - from + 1,
{
    if from < ids.len() {
        lemma_ceiling_above(ids, from as int);
        lemma_safe_expr_carries(ast, later, table, more, ids[from as int], t, u);
        lemma_safe_exprs_carries(ast, later, table, more, ids, from + 1, t, u);
    }
}

/// A safe statement stays safe when the program gets more nodes, the
/// table more uses, and the sets of the stack more names.
pub proof fn lemma_safe_stmt_carries(
    ast: AstView,
    later: AstView,
    table: Table,
    more: Table,
    id: usize,
    t: Names,
    u: Names,
)
    requires
        ast.wf(),
        later.wf(),
        later.extends(ast),
        table.kept_by(more),
        within(t, u),
        id < ast.stmts.len(),
        safe_stmt(ast, table, id, t),
    ensures
        safe_stmt(later, more, id, u),
    decreases 3 * (id + 1), 0nat,
{
    lemma_stmt_below(ast, id as int);
    assert(later.stmts[id as int] == ast.stmts[id as int]);
    match ast.stmts[id as int] {
        StmtView::Expression { expression } => {
            lemma_safe_expr_carries(ast, later, table, more, expression, t, u);
        },
        StmtView::Print { expression } => {
            lemma_safe_expr_carries(ast, later, table, more, expression, t, u);
        },
        StmtView::Var { name, initializer } => {
            lemma_safe_expr_carries(ast, later, table, more, initializer, t, u);
        },
        StmtView::Block { statements } => {
            lemma_ceiling_below(statements, id as int);
            lemma_within_push(t, u, Set::empty());
            lemma_safe_stmts_carries(
                ast,
                later,
                table,
                more,
                statements,
                0,
                t.push(Set::empty()),
                u.push(Set::empty()),
            );
        },
        StmtView::If { condition, then_branch, else_branch } => {
            lemma_safe_expr_carries(ast, later, table, more, condition, t, u);
            lemma_safe_stmt_carries(ast, later, table, more, then_branch, t, u);
            assert(later.stmts[then_branch as int] == ast.stmts[then_branch as int]);
            match else_branch {
                Some(e) => {
                    lemma_safe_stmt_carries(ast, later, table, more, e, t, u);
                    assert(later.stmts[e as int] == ast.stmts[e as int]);
                },
                None => {},
            }
        },
        StmtView::While { condition, body } => {
            lemma_safe_expr_carries(ast, later, table, more, condition, t, u);
            lemma_safe_stmt_carries(ast, later, table, more, body, t, u);
            assert(later.stmts[body as int] == ast.stmts[body as int]);
        },
        StmtView::Function { name, params, body } => {
            lemma_ceiling_below(body, id as int);
            lemma_within_with_name(t, u, name.lexeme@);
            lemma_within_push(
                with_name(t, name.lexeme@),
                with_name(u, name.lexeme@),
                params_names(params),
            );
            lemma_safe_stmts_carries(
                ast,
                later,
                table,
                more,
                body,
                0,
                with_name(t, name.lexeme@).push(params_names(params)),
                with_name(u, name.lexeme@).push(params_names(params)),
            );
        },
        StmtView::Return { keyword, value } => {
            lemma_safe_expr_carries(ast, later, table, more, value, t, u);
        },
    }
}

/// Safe statements stay safe when the program gets more nodes, the table
/// more uses, and the sets of the stack more names.
pub proof fn lemma_safe_stmts_carries(
    ast: AstView,
    later: AstView,
    table: Table,
    more: Table,
    ids: Seq<usize>,
    from: nat,
    t: Names,
    u: Names,
)
    requires
        ast.wf(),
        later.wf(),
        later.extends(ast),
        table.kept_by(more),
        within(t, u),
        all_below(ids, ast.stmts.len() as int),
        safe_stmts(ast, table, ids, from, t),
    ensures
        safe_stmts(later, more, ids, from, u),
    decreases 3 * ceiling(ids), ids.len() - from + 1,
{
    if from < ids.len() {
        lemma_ceiling_above(ids, from as int);
        let id = ids[from as int];
        lemma_safe_stmt_carries(ast, later, table, more, id, t, u);
        assert(later.stmts[id as int] == ast.stmts[id as int]);
        lemma_within_declared(ast.stmts[id as int], t, u);
        lemma_safe_stmts_carries(
            ast,
            later,
            table,
            more,
            ids,
            from + 1,
            declared_by(ast.stmts[id as int], t),
            declared_by(ast.stmts[id as int], u),
        );
    }
}

} // verus!
