//! Static resolution of variables, as functions on the nodes of a program.
//!
//! Resolution walks the statements in order with a stack of scopes. A scope
//! maps each name declared in it to whether its initializer has been read.
//! Each use of a variable that a scope declares gets the distance from the
//! innermost scope to that scope; a use of any other name gets none and is
//! global. The resolver's methods are verified against these functions.

use vstd::prelude::*;

use crate::ast::{lemma_expr_below, lemma_stmt_below, AstView};
use crate::expr::{all_below, ExprView};
use crate::report_text;
use crate::stmt::StmtView;
use crate::token::Token;
use crate::token_location;

verus! {

/// The state of a resolution.
pub struct Resolving {
    /// The scopes that are open, the innermost last.
    pub scopes: Seq<Map<Seq<char>, bool>>,
    /// The distances found so far, by expression.
    pub locals: Map<usize, usize>,
    /// The uses of variables resolved so far. This is an account that is
    /// kept beside the resolution; nothing is decided by it.
    pub seen: Set<usize>,
    /// A use of a variable came up that was resolved before. This is part
    /// of the account too.
    pub twice: bool,
    /// The diagnostics given so far.
    pub diagnostics: Seq<Seq<char>>,
}

/// One more than the largest index in `ids`; 0 for none.
pub open spec fn ceiling(ids: Seq<usize>) -> nat
    decreases ids.len(),
{
    if ids.len() == 0 {
        0
    } else {
        let rest = ceiling(ids.drop_last());
        if ids.last() + 1 > rest {
            (ids.last() + 1) as nat
        } else {
            rest
        }
    }
}

/// Indices that lie below a bound have a ceiling no higher than it.
pub proof fn lemma_ceiling_below(ids: Seq<usize>, bound: int)
    requires
        all_below(ids, bound),
        0 <= bound,
    ensures
        ceiling(ids) <= bound,
    decreases ids.len(),
{
    if ids.len() > 0 {
        let rest = ids.drop_last();
        assert forall|k: int| 0 <= k < rest.len() implies #[trigger] rest[k] < bound by {
            assert(rest[k] == ids[k]);
        }
        lemma_ceiling_below(rest, bound);
        assert(ids.last() == ids[ids.len() - 1]);
    }
}

/// Every index lies below the ceiling.
pub proof fn lemma_ceiling_above(ids: Seq<usize>, k: int)
    requires
        0 <= k < ids.len(),
    ensures
        ids[k] < ceiling(ids),
    decreases ids.len(),
{
    if k < ids.len() - 1 {
        let rest = ids.drop_last();
        assert(rest[k] == ids[k]);
        lemma_ceiling_above(rest, k);
    }
}

/// The state after the diagnostic `text`.
pub open spec fn reported(s: Resolving, text: Seq<char>) -> Resolving {
    Resolving { diagnostics: s.diagnostics.push(text), ..s }
}

/// The state with a new innermost scope.
pub open spec fn begin_scope(s: Resolving) -> Resolving {
    Resolving { scopes: s.scopes.push(Map::empty()), ..s }
}

/// The state without the innermost scope.
pub open spec fn end_scope(s: Resolving) -> Resolving {
    if s.scopes.len() > 0 {
        Resolving { scopes: s.scopes.drop_last(), ..s }
    } else {
        s
    }
}

/// The scopes with `name` bound to `ready` in the innermost one. Outside
/// every scope nothing is kept: a global is not tracked.
pub open spec fn bind(scopes: Seq<Map<Seq<char>, bool>>, name: Seq<char>, ready: bool) -> Seq<
    Map<Seq<char>, bool>,
> {
    if scopes.len() == 0 {
        scopes
    } else {
        scopes.update(scopes.len() - 1, scopes.last().insert(name, ready))
    }
}

/// The state after the declaration of `name`: the name is in the innermost
/// scope, not yet ready to be read. A name that the scope has already gets
/// a diagnostic, and the scope stays as it is.
pub open spec fn declare(s: Resolving, name: Token) -> Resolving {
    if s.scopes.len() > 0 && s.scopes.last().contains_key(name.lexeme@) {
        reported(
            s,
            report_text(
                name.line,
                token_location(name@),
                "Already a variable with this name in this scope"@,
            ),
        )
    } else {
        Resolving { scopes: bind(s.scopes, name.lexeme@, false), ..s }
    }
}

/// The state after the definition of `name`: the name is ready to be
/// read.
pub open spec fn define(s: Resolving, name: Seq<char>) -> Resolving {
    Resolving { scopes: bind(s.scopes, name, true), ..s }
}

/// `found`, moved out by `by` scopes.
pub open spec fn farther(found: Option<nat>, by: nat) -> Option<nat> {
    match found {
        Some(d) => Some(d + by),
        None => None,
    }
}

/// The distance from the scope at `top` to the nearest scope at or below
/// it that declares `name`.
pub open spec fn depth_from(scopes: Seq<Map<Seq<char>, bool>>, top: int, name: Seq<char>)
    -> Option<nat>
    decreases top + 1,
{
    if top < 0 || top >= scopes.len() {
        None
    } else if scopes[top].contains_key(name) {
        Some(0)
    } else {
        farther(depth_from(scopes, top - 1, name), 1)
    }
}

/// The distance from the innermost scope to the nearest scope that
/// declares `name`, if any does.
pub open spec fn depth_of(scopes: Seq<Map<Seq<char>, bool>>, name: Seq<char>) -> Option<nat> {
    depth_from(scopes, scopes.len() - 1, name)
}

/// The state after the use `id` of the variable `name` is resolved: the
/// distance from the innermost scope to the nearest scope that declares the
/// name is recorded for the use. If no scope declares it, nothing is
/// recorded: the variable is global.
pub open spec fn resolve_local(s: Resolving, id: usize, name: Token) -> Resolving {
    let noted = Resolving { seen: s.seen.insert(id), twice: s.twice || s.seen.contains(id), ..s };
    match depth_of(s.scopes, name.lexeme@) {
        Some(d) => Resolving { locals: s.locals.insert(id, d as usize), ..noted },
        None => noted,
    }
}

/// The innermost scope declares `name`, and its initializer is not read
/// yet.
pub open spec fn unready(s: Resolving, name: Token) -> bool {
    s.scopes.len() > 0 && s.scopes.last().contains_key(name.lexeme@) && !s.scopes.last()[name.lexeme@]
}

/// The state after the read `id` of the variable `name` is resolved. A
/// local variable cannot be read in its own initializer: that gets a
/// diagnostic, and no distance is recorded. Any other read is resolved.
pub open spec fn resolve_read(s: Resolving, id: usize, name: Token) -> Resolving {
    if unready(s, name) {
        reported(
            s,
            report_text(
                name.line,
                Seq::empty(),
                "Can't read local variable in its own initializer."@,
            ),
        )
    } else {
        resolve_local(s, id, name)
    }
}

/// The state after the expression `id` is resolved.
pub open spec fn resolve_expr(ast: AstView, id: usize, s: Resolving) -> Resolving
    decreases 3 * (id + 1), 0nat,
    when ast.wf() && id < ast.exprs.len()
{
    proof {
        lemma_expr_below(ast, id as int);
    }
    match ast.exprs[id as int] {
        ExprView::Binary { left, operator, right } => resolve_expr(
            ast,
            right,
            resolve_expr(ast, left, s),
        ),
        ExprView::Grouping { expression } => resolve_expr(ast, expression, s),
        ExprView::Literal { value } => s,
        ExprView::Unary { operator, right } => resolve_expr(ast, right, s),
        ExprView::Variable { name } => resolve_read(s, id, name),
        ExprView::Assign { name, value } => resolve_local(resolve_expr(ast, value, s), id, name),
        ExprView::Logical { left, operator, right } => resolve_expr(
            ast,
            right,
            resolve_expr(ast, left, s),
        ),
        ExprView::Call { callee, paren, arguments } => {
            proof {
                lemma_ceiling_below(arguments, id as int);
            }
            resolve_exprs(ast, arguments, 0, resolve_expr(ast, callee, s))
        },
    }
}

/// The state after the expressions `ids[from..]` are resolved, in order.
pub open spec fn resolve_exprs(ast: AstView, ids: Seq<usize>, from: nat, s: Resolving) -> Resolving
    decreases 3 * ceiling(ids), ids.len() - from + 1,
    when ast.wf() && all_below(ids, ast.exprs.len() as int)
{
    if from >= ids.len() {
        s
    } else {
        proof {
            lemma_ceiling_above(ids, from as int);
        }
        resolve_exprs(ast, ids, from + 1, resolve_expr(ast, ids[from as int], s))
    }
}

/// The state after the parameters `params[from..]` are declared and
/// defined, in order.
pub open spec fn declare_params(params: Seq<Token>, from: nat, s: Resolving) -> Resolving
    decreases params.len() - from,
{
    if from >= params.len() {
        s
    } else {
        let name = params[from as int];
        declare_params(params, from + 1, define(declare(s, name), name.lexeme@))
    }
}

/// The state after the statement `id` is resolved.
pub open spec fn resolve_stmt(ast: AstView, id: usize, s: Resolving) -> Resolving
    decreases 3 * (id + 1), 0nat,
    when ast.wf() && id < ast.stmts.len()
{
    proof {
        lemma_stmt_below(ast, id as int);
    }
    match ast.stmts[id as int] {
        StmtView::Expression { expression } => resolve_expr(ast, expression, s),
        StmtView::Print { expression } => resolve_expr(ast, expression, s),
        StmtView::Var { name, initializer } => define(
            resolve_expr(ast, initializer, declare(s, name)),
            name.lexeme@,
        ),
        StmtView::Block { statements } => {
            proof {
                lemma_ceiling_below(statements, id as int);
            }
            end_scope(resolve_stmts(ast, statements, 0, begin_scope(s)))
        },
        StmtView::If { condition, then_branch, else_branch } => {
            let then = resolve_stmt(ast, then_branch, resolve_expr(ast, condition, s));
            match else_branch {
                Some(e) => resolve_stmt(ast, e, then),
                None => then,
            }
        },
        StmtView::While { condition, body } => resolve_stmt(
            ast,
            body,
            resolve_expr(ast, condition, s),
        ),
        StmtView::Function { name, params, body } => {
            proof {
                lemma_ceiling_below(body, id as int);
            }
            let named = define(declare(s, name), name.lexeme@);
            end_scope(resolve_stmts(ast, body, 0, declare_params(params, 0, begin_scope(named))))
        },
        StmtView::Return { keyword, value } => resolve_expr(ast, value, s),
    }
}

/// The state after the statements `ids[from..]` are resolved, in order.
pub open spec fn resolve_stmts(ast: AstView, ids: Seq<usize>, from: nat, s: Resolving) -> Resolving
    decreases 3 * ceiling(ids), ids.len() - from + 1,
    when ast.wf() && all_below(ids, ast.stmts.len() as int)
{
    if from >= ids.len() {
        s
    } else {
        proof {
            lemma_ceiling_above(ids, from as int);
        }
        resolve_stmts(ast, ids, from + 1, resolve_stmt(ast, ids[from as int], s))
    }
}

/// The distance found from the scope at `top` leads to the nearest scope
/// at or below it that declares `name`; none is found only if none
/// declares it.
pub proof fn lemma_nearest_from(scopes: Seq<Map<Seq<char>, bool>>, top: int, name: Seq<char>)
    requires
        -1 <= top < scopes.len(),
    ensures
        match depth_from(scopes, top, name) {
            Some(d) => {
                &&& d <= top
                &&& scopes[top - d].contains_key(name)
                &&& forall|i: int| top - d < i <= top ==> !(#[trigger] scopes[i]).contains_key(name)
            },
            None => forall|i: int| 0 <= i <= top ==> !(#[trigger] scopes[i]).contains_key(name),
        },
    decreases top + 1,
{
    if top >= 0 && !scopes[top].contains_key(name) {
        lemma_nearest_from(scopes, top - 1, name);
    }
}

/// A use of a variable gets the number of scopes between the innermost
/// scope and the nearest scope that declares its name, so 0 for the
/// innermost scope itself. If no scope declares the name, the use gets no
/// distance. The scopes and the diagnostics stay as they are.
pub proof fn lemma_use_resolved(s: Resolving, id: usize, name: Token)
    ensures
        ({
            let r = resolve_local(s, id, name);
            let n = s.scopes.len() as int;
            &&& r.scopes == s.scopes
            &&& r.diagnostics == s.diagnostics
            &&& (exists|i: int| 0 <= i < n && (#[trigger] s.scopes[i]).contains_key(name.lexeme@))
                ==> exists|i: int|
                {
                    &&& 0 <= i < n
                    &&& (#[trigger] s.scopes[i]).contains_key(name.lexeme@)
                    &&& forall|j: int| i < j < n ==> !(#[trigger] s.scopes[j]).contains_key(name.lexeme@)
                    &&& r.locals == s.locals.insert(id, (n - 1 - i) as usize)
                }
            &&& (forall|i: int| 0 <= i < n ==> !(#[trigger] s.scopes[i]).contains_key(name.lexeme@))
                ==> r.locals == s.locals
        }),
{
    let n = s.scopes.len() as int;
    lemma_nearest_from(s.scopes, n - 1, name.lexeme@);
    match depth_of(s.scopes, name.lexeme@) {
        Some(d) => {
            let i = n - 1 - d;
            assert(s.scopes[i].contains_key(name.lexeme@));
        },
        None => {},
    }
}

/// A read of a variable in its own initializer, which is a read of a name
/// that the innermost scope holds as not ready, gets a diagnostic and no
/// distance. Every other read is resolved as a use and gets no
/// diagnostic; that an outer scope holds the name as not ready is no
/// error.
pub proof fn lemma_read_in_initializer(s: Resolving, id: usize, name: Token)
    ensures
        ({
            let r = resolve_read(s, id, name);
            let refused = s.scopes.len() > 0 && s.scopes.last().contains_key(name.lexeme@)
                && !s.scopes.last()[name.lexeme@];
            &&& refused ==> r == (Resolving {
                diagnostics: s.diagnostics.push(
                    report_text(
                        name.line,
                        Seq::empty(),
                        "Can't read local variable in its own initializer."@,
                    ),
                ),
                ..s
            })
            &&& !refused ==> r == resolve_local(s, id, name)
        }),
{
}

/// A declaration outside every scope changes nothing. A declaration of a
/// name that the innermost scope holds gets a diagnostic and leaves the
/// scopes as they were. Any other declaration adds the name to the
/// innermost scope, as not ready, and changes no other scope; that an
/// outer scope holds the name is no error.
pub proof fn lemma_declaration(s: Resolving, name: Token)
    ensures
        ({
            let r = declare(s, name);
            let n = s.scopes.len() as int;
            &&& r.locals == s.locals
            &&& n == 0 ==> r == s
            &&& n > 0 && s.scopes.last().contains_key(name.lexeme@) ==> r == (Resolving {
                diagnostics: s.diagnostics.push(
                    report_text(
                        name.line,
                        token_location(name@),
                        "Already a variable with this name in this scope"@,
                    ),
                ),
                ..s
            })
            &&& n > 0 && !s.scopes.last().contains_key(name.lexeme@) ==> {
                &&& r.diagnostics == s.diagnostics
                &&& r.scopes.len() == n
                &&& r.scopes.last() == s.scopes.last().insert(name.lexeme@, false)
                &&& forall|i: int| 0 <= i < n - 1 ==> #[trigger] r.scopes[i] == s.scopes[i]
            }
        }),
{
}

} // verus!
