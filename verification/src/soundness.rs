//! The resolver is sound: a program that it resolves without a diagnostic,
//! each use of a variable once, is safe in the sense of [`crate::safety`].
//! That each use is resolved once is shown in [`crate::once`].

use vstd::prelude::*;

use crate::ast::{lemma_branches_plain, lemma_expr_below, lemma_stmt_below, AstView};
use crate::expr::{all_below, ExprView};
use crate::resolution::{
    begin_scope, bind, ceiling, declare, declare_params, define,
    depth_of, end_scope, lemma_ceiling_above, lemma_ceiling_below, lemma_nearest_from, resolve_expr, resolve_exprs, resolve_local, resolve_stmt, resolve_stmts, Resolving,
};
use crate::safety::{
    declared_by, lemma_safe_expr_carries, lemma_safe_stmt_carries,
    params_names, safe_expr, safe_exprs, safe_stmt, safe_stmts,
    with_name, within, Names, Table,
};
use crate::stmt::StmtView;
use crate::token::Token;

verus! {

/// The names of a scope that are ready to be read.
pub open spec fn readable(scope: Map<Seq<char>, bool>) -> Set<Seq<char>> {
    Set::new(|name: Seq<char>| scope.contains_key(name) && scope[name])
}

/// The names that are ready to be read, scope by scope.
pub open spec fn ready(scopes: Seq<Map<Seq<char>, bool>>) -> Names {
    Seq::new(scopes.len(), |i: int| readable(scopes[i]))
}

/// Every name of the scopes below the first `open` from the top is ready
/// to be read.
pub open spec fn ready_below(scopes: Seq<Map<Seq<char>, bool>>, open: int) -> bool {
    forall|i: int, name: Seq<char>|
        0 <= i < scopes.len() - open && #[trigger] scopes[i].contains_key(name) ==> scopes[i][name]
}

/// Every name of every scope is ready to be read.
pub open spec fn all_ready(scopes: Seq<Map<Seq<char>, bool>>) -> bool {
    ready_below(scopes, 0)
}

/// Every name of every scope but the innermost is ready to be read.
pub open spec fn settled(scopes: Seq<Map<Seq<char>, bool>>) -> bool {
    ready_below(scopes, 1)
}

/// What the state of a resolution knows of the uses of variables.
pub open spec fn table_of(s: Resolving) -> Table {
    Table { locals: s.locals, seen: s.seen }
}

/// Every use with a distance is a resolved use.
pub open spec fn tidy(s: Resolving) -> bool {
    forall|k: usize| #[trigger] s.locals.contains_key(k) ==> s.seen.contains(k)
}

/// The step from `s` to `r` gave no diagnostic, and up to `r` no use was
/// resolved twice.
pub open spec fn quiet(s: Resolving, r: Resolving) -> bool {
    r.diagnostics.len() == s.diagnostics.len() && !r.twice
}

/// `r` is a state that a resolution in the state `s` can come to: no
/// diagnostic is taken back, what was resolved stays as it was unless a
/// use was resolved twice, and only the innermost scope may have changed.
pub open spec fn steady(s: Resolving, r: Resolving) -> bool {
    &&& r.diagnostics.len() >= s.diagnostics.len()
    &&& s.twice ==> r.twice
    &&& !r.twice ==> table_of(s).kept_by(table_of(r))
    &&& tidy(s) ==> tidy(r)
    &&& r.scopes.len() == s.scopes.len()
    &&& forall|i: int| 0 <= i < s.scopes.len() - 1 ==> #[trigger] r.scopes[i] == s.scopes[i]
}

/// Steady steps make a steady step.
pub proof fn lemma_steady_chain(a: Resolving, b: Resolving, c: Resolving)
    requires
        steady(a, b),
        steady(b, c),
    ensures
        steady(a, c),
{
    if !c.twice {
        assert forall|k: usize| #[trigger] a.seen.contains(k) implies {
            &&& a.locals.contains_key(k) == c.locals.contains_key(k)
            &&& a.locals.contains_key(k) ==> a.locals[k] == c.locals[k]
        } by {
            assert(b.seen.contains(k));
        }
    }
    assert forall|i: int| 0 <= i < a.scopes.len() - 1 implies #[trigger] c.scopes[i]
        == a.scopes[i] by {
        assert(b.scopes[i] == a.scopes[i]);
    }
}

/// A binding in the innermost scope is a steady step.
pub proof fn lemma_bind_steady(s: Resolving, name: Seq<char>, flag: bool)
    ensures
        steady(s, Resolving { scopes: bind(s.scopes, name, flag), ..s }),
{
}

/// A declaration is a steady step.
pub proof fn lemma_declare_steady(s: Resolving, name: Token)
    ensures
        steady(s, declare(s, name)),
{
}

/// The resolution of a use is a steady step that leaves the scopes as
/// they are.
pub proof fn lemma_resolve_local_steady(s: Resolving, id: usize, name: Token)
    ensures
        steady(s, resolve_local(s, id, name)),
        resolve_local(s, id, name).scopes == s.scopes,
{
}

/// Resolving an expression leaves the scopes as they are.
pub proof fn lemma_resolve_expr_steady(ast: AstView, id: usize, s: Resolving)
    requires
        ast.wf(),
        id < ast.exprs.len(),
    ensures
        steady(s, resolve_expr(ast, id, s)),
        resolve_expr(ast, id, s).scopes == s.scopes,
    decreases 3 * (id + 1), 0nat,
{
    lemma_expr_below(ast, id as int);
    match ast.exprs[id as int] {
        ExprView::Binary { left, operator, right } => {
            let mid = resolve_expr(ast, left, s);
            lemma_resolve_expr_steady(ast, left, s);
            lemma_resolve_expr_steady(ast, right, mid);
            lemma_steady_chain(s, mid, resolve_expr(ast, right, mid));
        },
        ExprView::Grouping { expression } => {
            lemma_resolve_expr_steady(ast, expression, s);
        },
        ExprView::Literal { value } => {},
        ExprView::Unary { operator, right } => {
            lemma_resolve_expr_steady(ast, right, s);
        },
        ExprView::Variable { name } => {
            lemma_resolve_local_steady(s, id, name);
        },
        ExprView::Assign { name, value } => {
            let mid = resolve_expr(ast, value, s);
            lemma_resolve_expr_steady(ast, value, s);
            lemma_resolve_local_steady(mid, id, name);
            lemma_steady_chain(s, mid, resolve_local(mid, id, name));
        },
        ExprView::Logical { left, operator, right } => {
            let mid = resolve_expr(ast, left, s);
            lemma_resolve_expr_steady(ast, left, s);
            lemma_resolve_expr_steady(ast, right, mid);
            lemma_steady_chain(s, mid, resolve_expr(ast, right, mid));
        },
        ExprView::Call { callee, paren, arguments } => {
            lemma_ceiling_below(arguments, id as int);
            let mid = resolve_expr(ast, callee, s);
            lemma_resolve_expr_steady(ast, callee, s);
            lemma_resolve_exprs_steady(ast, arguments, 0, mid);
            lemma_steady_chain(s, mid, resolve_exprs(ast, arguments, 0, mid));
        },
    }
}

/// Resolving expressions leaves the scopes as they are.
pub proof fn lemma_resolve_exprs_steady(ast: AstView, ids: Seq<usize>, from: nat, s: Resolving)
    requires
        ast.wf(),
        all_below(ids, ast.exprs.len() as int),
    ensures
        steady(s, resolve_exprs(ast, ids, from, s)),
        resolve_exprs(ast, ids, from, s).scopes == s.scopes,
    decreases 3 * ceiling(ids), ids.len() - from + 1,
{
    if from < ids.len() {
        lemma_ceiling_above(ids, from as int);
        let mid = resolve_expr(ast, ids[from as int], s);
        lemma_resolve_expr_steady(ast, ids[from as int], s);
        lemma_resolve_exprs_steady(ast, ids, from + 1, mid);
        lemma_steady_chain(s, mid, resolve_exprs(ast, ids, from + 1, mid));
    }
}

/// Declaring parameters changes the innermost scope only.
pub proof fn lemma_declare_params_steady(params: Seq<Token>, from: nat, s: Resolving)
    ensures
        steady(s, declare_params(params, from, s)),
    decreases params.len() - from,
{
    if from < params.len() {
        let name = params[from as int];
        let declared = declare(s, name);
        let mid = define(declared, name.lexeme@);
        lemma_declare_steady(s, name);
        lemma_bind_steady(declared, name.lexeme@, true);
        lemma_steady_chain(s, declared, mid);
        lemma_declare_params_steady(params, from + 1, mid);
        lemma_steady_chain(s, mid, declare_params(params, from + 1, mid));
    }
}

/// Resolving a statement changes the innermost scope only.
pub proof fn lemma_resolve_stmt_steady(ast: AstView, id: usize, s: Resolving)
    requires
        ast.wf(),
        id < ast.stmts.len(),
    ensures
        steady(s, resolve_stmt(ast, id, s)),
    decreases 3 * (id + 1), 0nat,
{
    lemma_stmt_below(ast, id as int);
    match ast.stmts[id as int] {
        StmtView::Expression { expression } => {
            lemma_resolve_expr_steady(ast, expression, s);
        },
        StmtView::Print { expression } => {
            lemma_resolve_expr_steady(ast, expression, s);
        },
        StmtView::Var { name, initializer } => {
            let declared = declare(s, name);
            let mid = resolve_expr(ast, initializer, declared);
            lemma_declare_steady(s, name);
            lemma_resolve_expr_steady(ast, initializer, declared);
            lemma_steady_chain(s, declared, mid);
            lemma_bind_steady(mid, name.lexeme@, true);
            lemma_steady_chain(s, mid, define(mid, name.lexeme@));
        },
        StmtView::Block { statements } => {
            lemma_ceiling_below(statements, id as int);
            let opened = begin_scope(s);
            let inner = resolve_stmts(ast, statements, 0, opened);
            lemma_resolve_stmts_steady(ast, statements, 0, opened);
            lemma_scope_closed(s, opened, inner);
        },
        StmtView::If { condition, then_branch, else_branch } => {
            let tested = resolve_expr(ast, condition, s);
            let then = resolve_stmt(ast, then_branch, tested);
            lemma_resolve_expr_steady(ast, condition, s);
            lemma_resolve_stmt_steady(ast, then_branch, tested);
            lemma_steady_chain(s, tested, then);
            match else_branch {
                Some(e) => {
                    lemma_resolve_stmt_steady(ast, e, then);
                    lemma_steady_chain(s, then, resolve_stmt(ast, e, then));
                },
                None => {},
            }
        },
        StmtView::While { condition, body } => {
            let tested = resolve_expr(ast, condition, s);
            lemma_resolve_expr_steady(ast, condition, s);
            lemma_resolve_stmt_steady(ast, body, tested);
            lemma_steady_chain(s, tested, resolve_stmt(ast, body, tested));
        },
        StmtView::Function { name, params, body } => {
            lemma_ceiling_below(body, id as int);
            let declared = declare(s, name);
            let named = define(declared, name.lexeme@);
            lemma_declare_steady(s, name);
            lemma_bind_steady(declared, name.lexeme@, true);
            lemma_steady_chain(s, declared, named);
            let opened = begin_scope(named);
            let with_params = declare_params(params, 0, opened);
            let inner = resolve_stmts(ast, body, 0, with_params);
            lemma_declare_params_steady(params, 0, opened);
            lemma_resolve_stmts_steady(ast, body, 0, with_params);
            lemma_steady_chain(opened, with_params, inner);
            lemma_scope_closed(named, opened, inner);
            lemma_steady_chain(s, named, end_scope(inner));
        },
        StmtView::Return { keyword, value } => {
            lemma_resolve_expr_steady(ast, value, s);
        },
    }
}

/// What is inside a new scope leaves the scopes around it as they are.
pub proof fn lemma_scope_closed(s: Resolving, opened: Resolving, r: Resolving)
    requires
        opened == begin_scope(s),
        steady(opened, r),
    ensures
        steady(s, end_scope(r)),
        end_scope(r).scopes == s.scopes,
{
    let closed = end_scope(r);
    assert(closed.scopes =~= s.scopes) by {
        assert forall|i: int| 0 <= i < s.scopes.len() implies closed.scopes[i] == s.scopes[i] by {
            assert(r.scopes[i] == opened.scopes[i]);
        }
    }
}

/// Resolving statements changes the innermost scope only.
pub proof fn lemma_resolve_stmts_steady(ast: AstView, ids: Seq<usize>, from: nat, s: Resolving)
    requires
        ast.wf(),
        all_below(ids, ast.stmts.len() as int),
    ensures
        steady(s, resolve_stmts(ast, ids, from, s)),
    decreases 3 * ceiling(ids), ids.len() - from + 1,
{
    if from < ids.len() {
        lemma_ceiling_above(ids, from as int);
        let mid = resolve_stmt(ast, ids[from as int], s);
        lemma_resolve_stmt_steady(ast, ids[from as int], s);
        lemma_resolve_stmts_steady(ast, ids, from + 1, mid);
        lemma_steady_chain(s, mid, resolve_stmts(ast, ids, from + 1, mid));
    }
}

/// A stack lies within itself.
pub proof fn lemma_within_same(t: Names)
    ensures
        within(t, t),
{
}

/// How a binding in the innermost scope changes the names that are
/// ready.
pub proof fn lemma_ready_bound(scopes: Seq<Map<Seq<char>, bool>>, name: Seq<char>)
    requires
        all_ready(scopes),
    ensures
        settled(bind(scopes, name, false)),
        within(ready(bind(scopes, name, false)), ready(scopes)),
        all_ready(bind(scopes, name, true)),
        ready(bind(scopes, name, true)) == with_name(ready(scopes), name),
        ready(bind(bind(scopes, name, false), name, true)) == with_name(ready(scopes), name),
        all_ready(bind(bind(scopes, name, false), name, true)),
{
    let off = bind(scopes, name, false);
    let on = bind(scopes, name, true);
    let again = bind(off, name, true);
    if scopes.len() > 0 {
        let last = scopes.len() - 1;
        assert forall|i: int| 0 <= i < off.len() implies (#[trigger] ready(off)[i]).subset_of(
            ready(scopes)[i],
        ) by {
            if i == last {
                assert forall|n: Seq<char>| readable(off[i]).contains(n) implies readable(
                    scopes[i],
                ).contains(n) by {}
            }
        }
        assert(ready(on) =~= with_name(ready(scopes), name)) by {
            assert forall|i: int| 0 <= i < on.len() implies ready(on)[i] == with_name(
                ready(scopes),
                name,
            )[i] by {
                if i == last {
                    assert(readable(on[i]) =~= readable(scopes[i]).insert(name));
                }
            }
        }
        assert(again =~= on) by {
            assert(again[last] =~= on[last]);
        }
    } else {
        assert(ready(on) =~= with_name(ready(scopes), name));
    }
}

/// A new scope has no names, so all names stay ready.
pub proof fn lemma_ready_scope(scopes: Seq<Map<Seq<char>, bool>>)
    ensures
        ready(scopes.push(Map::empty())) == ready(scopes).push(Set::empty()),
        all_ready(scopes) ==> all_ready(scopes.push(Map::empty())),
{
    let opened = scopes.push(Map::empty());
    assert(ready(opened) =~= ready(scopes).push(Set::empty())) by {
        assert forall|i: int| 0 <= i < opened.len() implies ready(opened)[i] == ready(scopes).push(
            Set::empty(),
        )[i] by {
            if i == scopes.len() {
                assert(readable(opened[i]) =~= Set::<Seq<char>>::empty());
            }
        }
    }
}

/// The names of the parameters `params[from..]`.
pub open spec fn names_from(params: Seq<Token>, from: nat) -> Set<Seq<char>> {
    Set::new(
        |name: Seq<char>|
            exists|i: int| from <= i < params.len() && (#[trigger] params[i]).lexeme@ == name,
    )
}

/// After the parameters are declared, the innermost scope holds their
/// names too, and every name is ready.
pub proof fn lemma_declare_params_ready(params: Seq<Token>, from: nat, s: Resolving)
    requires
        all_ready(s.scopes),
        s.scopes.len() > 0,
        from <= params.len(),
    ensures
        all_ready(declare_params(params, from, s).scopes),
        ready(declare_params(params, from, s).scopes) == ready(s.scopes).update(
            s.scopes.len() - 1,
            readable(s.scopes.last()).union(names_from(params, from)),
        ),
    decreases params.len() - from,
{
    let r = declare_params(params, from, s);
    let last = s.scopes.len() - 1;
    if from < params.len() {
        let name = params[from as int];
        let mid = define(declare(s, name), name.lexeme@);
        lemma_ready_bound(s.scopes, name.lexeme@);
        lemma_declare_params_ready(params, from + 1, mid);
        assert(names_from(params, from) =~= names_from(params, from + 1).insert(name.lexeme@)) by {
            assert forall|n: Seq<char>| names_from(params, from).contains(n) implies names_from(
                params,
                from + 1,
            ).insert(name.lexeme@).contains(n) by {
                let i = choose|i: int|
                    from <= i < params.len() && (#[trigger] params[i]).lexeme@ == n;
                if i != from {
                    assert(from + 1 <= i < params.len() && params[i].lexeme@ == n);
                }
            }
            assert forall|n: Seq<char>|
                names_from(params, from + 1).insert(name.lexeme@).contains(n) implies names_from(
                params,
                from,
            ).contains(n) by {
                if n == name.lexeme@ {
                    assert(from <= from < params.len() && params[from as int].lexeme@ == n);
                } else {
                    let i = choose|i: int|
                        from + 1 <= i < params.len() && (#[trigger] params[i]).lexeme@ == n;
                    assert(from <= i < params.len() && params[i].lexeme@ == n);
                }
            }
        }
        assert(ready(r.scopes) =~= ready(s.scopes).update(
            last,
            readable(s.scopes.last()).union(names_from(params, from)),
        )) by {
            assert(with_name(ready(s.scopes), name.lexeme@)[last] == readable(
                s.scopes.last(),
            ).insert(name.lexeme@));
            assert(readable(mid.scopes.last()) == readable(s.scopes.last()).insert(name.lexeme@));
            assert(readable(s.scopes.last()).insert(name.lexeme@).union(
                names_from(params, from + 1),
            ) =~= readable(s.scopes.last()).union(names_from(params, from)));
        }
    } else {
        assert(names_from(params, from) =~= Set::<Seq<char>>::empty());
        assert(readable(s.scopes.last()).union(names_from(params, from)) =~= readable(
            s.scopes.last(),
        ));
        assert(ready(r.scopes) =~= ready(s.scopes).update(
            last,
            readable(s.scopes.last()).union(names_from(params, from)),
        ));
    }
}

/// An expression that is resolved without a diagnostic is safe for the
/// names that are ready in the scopes.
pub proof fn lemma_resolve_expr_sound(ast: AstView, id: usize, s: Resolving)
    requires
        ast.wf(),
        id < ast.exprs.len(),
        settled(s.scopes),
        tidy(s),
        s.scopes.len() <= usize::MAX,
    ensures
        quiet(s, resolve_expr(ast, id, s)) ==> safe_expr(
            ast,
            table_of(resolve_expr(ast, id, s)),
            id,
            ready(s.scopes),
        ),
    decreases 3 * (id + 1), 0nat,
{
    let r = resolve_expr(ast, id, s);
    let t = ready(s.scopes);
    lemma_expr_below(ast, id as int);
    lemma_resolve_expr_steady(ast, id, s);
    lemma_within_same(t);
    match ast.exprs[id as int] {
        ExprView::Binary { left, operator, right } => {
            lemma_pair_sound(ast, left, right, s);
        },
        ExprView::Grouping { expression } => {
            lemma_resolve_expr_sound(ast, expression, s);
        },
        ExprView::Literal { value } => {},
        ExprView::Unary { operator, right } => {
            lemma_resolve_expr_sound(ast, right, s);
        },
        ExprView::Variable { name } => {
            if quiet(s, r) {
                assert(r == resolve_local(s, id, name));
                assert(!s.seen.contains(id));
                lemma_nearest_from(s.scopes, s.scopes.len() - 1, name.lexeme@);
                match depth_of(s.scopes, name.lexeme@) {
                    Some(d) => {
                        let at = s.scopes.len() - 1 - d;
                        assert(s.scopes[at].contains_key(name.lexeme@));
                        assert(s.scopes[at][name.lexeme@]);
                        assert(readable(s.scopes[at]).contains(name.lexeme@));
                        assert(t[at] == readable(s.scopes[at]));
                        assert(r.locals[id] == d as usize);
                        assert(d < s.scopes.len());
                    },
                    None => {
                        assert(!r.locals.contains_key(id));
                    },
                }
            }
        },
        ExprView::Assign { name, value } => {
            let mid = resolve_expr(ast, value, s);
            lemma_resolve_expr_sound(ast, value, s);
            lemma_resolve_expr_steady(ast, value, s);
            lemma_resolve_local_steady(mid, id, name);
            if quiet(s, r) {
                lemma_safe_expr_carries(ast, ast, table_of(mid), table_of(r), value, t, t);
                assert(!mid.seen.contains(id));
                lemma_nearest_from(mid.scopes, mid.scopes.len() - 1, name.lexeme@);
                match depth_of(mid.scopes, name.lexeme@) {
                    Some(d) => {
                        assert(r.locals[id] == d as usize);
                        assert(d < s.scopes.len());
                    },
                    None => {
                        assert(!r.locals.contains_key(id));
                    },
                }
            }
        },
        ExprView::Logical { left, operator, right } => {
            lemma_pair_sound(ast, left, right, s);
        },
        ExprView::Call { callee, paren, arguments } => {
            lemma_ceiling_below(arguments, id as int);
            let mid = resolve_expr(ast, callee, s);
            lemma_resolve_expr_sound(ast, callee, s);
            lemma_resolve_expr_steady(ast, callee, s);
            lemma_resolve_exprs_steady(ast, arguments, 0, mid);
            lemma_resolve_exprs_sound(ast, arguments, 0, mid);
            if quiet(s, r) {
                lemma_safe_expr_carries(ast, ast, table_of(mid), table_of(r), callee, t, t);
            }
        },
    }
}

/// Two expressions that are resolved one after the other without a
/// diagnostic are both safe.
pub proof fn lemma_pair_sound(ast: AstView, left: usize, right: usize, s: Resolving)
    requires
        ast.wf(),
        left < ast.exprs.len(),
        right < ast.exprs.len(),
        settled(s.scopes),
        tidy(s),
        s.scopes.len() <= usize::MAX,
    ensures
        ({
            let r = resolve_expr(ast, right, resolve_expr(ast, left, s));
            quiet(s, r) ==> safe_expr(ast, table_of(r), left, ready(s.scopes)) && safe_expr(
                ast,
                table_of(r),
                right,
                ready(s.scopes),
            )
        }),
    decreases 3 * ((if left > right {
        left
    } else {
        right
    }) + 1), 1nat,
{
    let t = ready(s.scopes);
    let mid = resolve_expr(ast, left, s);
    let r = resolve_expr(ast, right, mid);
    lemma_resolve_expr_steady(ast, left, s);
    lemma_resolve_expr_steady(ast, right, mid);
    lemma_resolve_expr_sound(ast, left, s);
    lemma_resolve_expr_sound(ast, right, mid);
    lemma_within_same(t);
    if quiet(s, r) {
        lemma_safe_expr_carries(ast, ast, table_of(mid), table_of(r), left, t, t);
    }
}

/// Expressions that are resolved without a diagnostic are safe for the
/// names that are ready in the scopes.
pub proof fn lemma_resolve_exprs_sound(ast: AstView, ids: Seq<usize>, from: nat, s: Resolving)
    requires
        ast.wf(),
        all_below(ids, ast.exprs.len() as int),
        settled(s.scopes),
        tidy(s),
        s.scopes.len() <= usize::MAX,
    ensures
        quiet(s, resolve_exprs(ast, ids, from, s)) ==> safe_exprs(
            ast,
            table_of(resolve_exprs(ast, ids, from, s)),
            ids,
            from,
            ready(s.scopes),
        ),
    decreases 3 * ceiling(ids), ids.len() - from + 1,
{
    if from < ids.len() {
        let t = ready(s.scopes);
        lemma_ceiling_above(ids, from as int);
        let mid = resolve_expr(ast, ids[from as int], s);
        let r = resolve_exprs(ast, ids, from + 1, mid);
        lemma_resolve_expr_steady(ast, ids[from as int], s);
        lemma_resolve_exprs_steady(ast, ids, from + 1, mid);
        lemma_resolve_expr_sound(ast, ids[from as int], s);
        lemma_resolve_exprs_sound(ast, ids, from + 1, mid);
        lemma_within_same(t);
        if quiet(s, r) {
            lemma_safe_expr_carries(ast, ast, table_of(mid), table_of(r), ids[from as int], t, t);
        }
    }
}

/// What holds of a statement that is resolved without a diagnostic: it is
/// safe for the names that were ready before it, the names that are ready
/// behind it are those and the one it declares, and all names are ready
/// again.
pub open spec fn stmt_sound(ast: AstView, id: usize, s: Resolving, r: Resolving) -> bool {
    &&& safe_stmt(ast, table_of(r), id, ready(s.scopes))
    &&& ready(r.scopes) == declared_by(ast.stmts[id as int], ready(s.scopes))
    &&& all_ready(r.scopes)
}

/// An expression statement, a `print` or a `return` that is resolved
/// without a diagnostic is safe.
pub proof fn lemma_simple_sound(ast: AstView, id: usize, expression: usize, s: Resolving)
    requires
        ast.wf(),
        id < ast.stmts.len(),
        expression < ast.exprs.len(),
        all_ready(s.scopes),
        tidy(s),
        s.scopes.len() <= usize::MAX,
        match ast.stmts[id as int] {
            StmtView::Expression { expression: e } => e == expression,
            StmtView::Print { expression: e } => e == expression,
            StmtView::Return { keyword, value } => value == expression,
            _ => false,
        },
    ensures
        quiet(s, resolve_stmt(ast, id, s)) ==> stmt_sound(ast, id, s, resolve_stmt(ast, id, s)),
{
    lemma_resolve_expr_steady(ast, expression, s);
    lemma_resolve_expr_sound(ast, expression, s);
}

/// A variable declaration that is resolved without a diagnostic is safe.
pub proof fn lemma_var_sound(ast: AstView, id: usize, s: Resolving)
    requires
        ast.wf(),
        id < ast.stmts.len(),
        ast.stmts[id as int] is Var,
        all_ready(s.scopes),
        tidy(s),
        s.scopes.len() <= usize::MAX,
    ensures
        quiet(s, resolve_stmt(ast, id, s)) ==> stmt_sound(ast, id, s, resolve_stmt(ast, id, s)),
{
    lemma_stmt_below(ast, id as int);
    let r = resolve_stmt(ast, id, s);
    match ast.stmts[id as int] {
        StmtView::Var { name, initializer } => {
            let declared = declare(s, name);
            let mid = resolve_expr(ast, initializer, declared);
            lemma_declare_steady(s, name);
            lemma_ready_bound(s.scopes, name.lexeme@);
            lemma_resolve_expr_steady(ast, initializer, declared);
            lemma_resolve_expr_sound(ast, initializer, declared);
            if quiet(s, r) {
                assert(quiet(declared, mid));
                lemma_safe_expr_carries(
                    ast,
                    ast,
                    table_of(mid),
                    table_of(r),
                    initializer,
                    ready(declared.scopes),
                    ready(s.scopes),
                );
            }
        },
        _ => {},
    }
}

/// A statement that is resolved without a diagnostic is safe.
pub proof fn lemma_resolve_stmt_sound(ast: AstView, id: usize, s: Resolving)
    requires
        ast.wf(),
        id < ast.stmts.len(),
        all_ready(s.scopes),
        tidy(s),
        s.scopes.len() + id + 1 <= usize::MAX,
    ensures
        quiet(s, resolve_stmt(ast, id, s)) ==> stmt_sound(ast, id, s, resolve_stmt(ast, id, s)),
    decreases 3 * (id + 1), 0nat,
{
    let r = resolve_stmt(ast, id, s);
    let t = ready(s.scopes);
    lemma_stmt_below(ast, id as int);
    lemma_within_same(t);
    match ast.stmts[id as int] {
        StmtView::Expression { expression } => {
            lemma_simple_sound(ast, id, expression, s);
        },
        StmtView::Print { expression } => {
            lemma_simple_sound(ast, id, expression, s);
        },
        StmtView::Var { name, initializer } => {
            lemma_var_sound(ast, id, s);
        },
        StmtView::Block { statements } => {
            lemma_ceiling_below(statements, id as int);
            let opened = begin_scope(s);
            let inner = resolve_stmts(ast, statements, 0, opened);
            lemma_ready_scope(s.scopes);
            lemma_resolve_stmts_steady(ast, statements, 0, opened);
            lemma_resolve_stmts_sound(ast, statements, 0, opened);
            lemma_scope_closed(s, opened, inner);
        },
        StmtView::If { condition, then_branch, else_branch } => {
            let tested = resolve_expr(ast, condition, s);
            let then = resolve_stmt(ast, then_branch, tested);
            lemma_branches_plain(ast, id as int);
            lemma_resolve_expr_steady(ast, condition, s);
            lemma_resolve_expr_sound(ast, condition, s);
            lemma_resolve_stmt_steady(ast, then_branch, tested);
            match else_branch {
                Some(e) => {
                    lemma_resolve_stmt_steady(ast, e, then);
                    if quiet(s, r) {
                        lemma_resolve_stmt_sound(ast, then_branch, tested);
                        lemma_resolve_stmt_sound(ast, e, then);
                        lemma_steady_chain(tested, then, r);
                        lemma_safe_expr_carries(
                            ast,
                            ast,
                            table_of(tested),
                            table_of(r),
                            condition,
                            t,
                            t,
                        );
                        lemma_safe_stmt_carries(
                            ast,
                            ast,
                            table_of(then),
                            table_of(r),
                            then_branch,
                            t,
                            t,
                        );
                    }
                },
                None => {
                    if quiet(s, r) {
                        lemma_resolve_stmt_sound(ast, then_branch, tested);
                        lemma_safe_expr_carries(
                            ast,
                            ast,
                            table_of(tested),
                            table_of(r),
                            condition,
                            t,
                            t,
                        );
                    }
                },
            }
        },
        StmtView::While { condition, body } => {
            let tested = resolve_expr(ast, condition, s);
            lemma_branches_plain(ast, id as int);
            lemma_resolve_expr_steady(ast, condition, s);
            lemma_resolve_expr_sound(ast, condition, s);
            lemma_resolve_stmt_steady(ast, body, tested);
            if quiet(s, r) {
                lemma_resolve_stmt_sound(ast, body, tested);
                lemma_safe_expr_carries(ast, ast, table_of(tested), table_of(r), condition, t, t);
            }
        },
        StmtView::Function { name, params, body } => {
            lemma_ceiling_below(body, id as int);
            let declared = declare(s, name);
            let named = define(declared, name.lexeme@);
            let opened = begin_scope(named);
            let with_params = declare_params(params, 0, opened);
            let inner = resolve_stmts(ast, body, 0, with_params);
            lemma_declare_steady(s, name);
            lemma_bind_steady(declared, name.lexeme@, true);
            lemma_ready_bound(s.scopes, name.lexeme@);
            lemma_ready_scope(named.scopes);
            lemma_declare_params_steady(params, 0, opened);
            lemma_declare_params_ready(params, 0, opened);
            lemma_resolve_stmts_steady(ast, body, 0, with_params);
            lemma_steady_chain(opened, with_params, inner);
            lemma_scope_closed(named, opened, inner);
            assert(names_from(params, 0) =~= params_names(params));
            assert(opened.scopes.last() == Map::<Seq<char>, bool>::empty());
            assert(readable(opened.scopes.last()) =~= Set::<Seq<char>>::empty());
            assert(readable(opened.scopes.last()).union(names_from(params, 0)) =~= params_names(
                params,
            ));
            assert(ready(named.scopes) == with_name(t, name.lexeme@));
            assert(ready(opened.scopes) == with_name(t, name.lexeme@).push(Set::empty()));
            assert(opened.scopes.len() - 1 == named.scopes.len());
            assert(ready(with_params.scopes) =~= with_name(t, name.lexeme@).push(
                params_names(params),
            ));
            if quiet(s, r) {
                lemma_steady_chain(s, declared, named);
                lemma_resolve_stmts_sound(ast, body, 0, with_params);
            }
        },
        StmtView::Return { keyword, value } => {
            lemma_simple_sound(ast, id, value, s);
        },
    }
}

/// Statements that are resolved without a diagnostic are safe, one after
/// the other.
pub proof fn lemma_resolve_stmts_sound(ast: AstView, ids: Seq<usize>, from: nat, s: Resolving)
    requires
        ast.wf(),
        all_below(ids, ast.stmts.len() as int),
        all_ready(s.scopes),
        tidy(s),
        s.scopes.len() + ceiling(ids) <= usize::MAX,
    ensures
        quiet(s, resolve_stmts(ast, ids, from, s)) ==> safe_stmts(
            ast,
            table_of(resolve_stmts(ast, ids, from, s)),
            ids,
            from,
            ready(s.scopes),
        ) && all_ready(resolve_stmts(ast, ids, from, s).scopes),
    decreases 3 * ceiling(ids), ids.len() - from + 1,
{
    if from < ids.len() {
        let t = ready(s.scopes);
        lemma_ceiling_above(ids, from as int);
        let id = ids[from as int];
        let mid = resolve_stmt(ast, id, s);
        let r = resolve_stmts(ast, ids, from + 1, mid);
        lemma_resolve_stmt_steady(ast, id, s);
        lemma_resolve_stmts_steady(ast, ids, from + 1, mid);
        lemma_resolve_stmt_sound(ast, id, s);
        lemma_within_same(t);
        if quiet(s, r) {
            lemma_resolve_stmts_sound(ast, ids, from + 1, mid);
            lemma_safe_stmt_carries(ast, ast, table_of(mid), table_of(r), id, t, t);
        }
    }
}

/// The resolver is sound: a program that is resolved outside every scope
/// without a diagnostic, each use of a variable once, is safe there.
pub proof fn lemma_resolver_sound(ast: AstView, program: Seq<usize>, s: Resolving)
    requires
        ast.wf(),
        ast.stmts.len() <= usize::MAX,
        all_below(program, ast.stmts.len() as int),
        s.scopes.len() == 0,
        tidy(s),
    ensures
        ({
            let r = resolve_stmts(ast, program, 0, s);
            &&& !r.twice ==> table_of(s).kept_by(table_of(r))
            &&& tidy(r)
            &&& quiet(s, r) ==> safe_stmts(ast, table_of(r), program, 0, Seq::empty())
        }),
{
    lemma_ceiling_below(program, ast.stmts.len() as int);
    lemma_resolve_stmts_steady(ast, program, 0, s);
    lemma_resolve_stmts_sound(ast, program, 0, s);
    assert(ready(s.scopes) =~= Seq::empty());
}

} // verus!
