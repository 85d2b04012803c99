//! The interpreter keeps the distances of the resolver true.
//!
//! A state of the machine is sound if its pending code is safe, in the
//! sense of [`crate::safety`], for the names that are bound in the
//! environments it will run in. A sound machine finds every local variable
//! where the resolver said it would be, and every step keeps the machine
//! sound.

use vstd::prelude::*;

use crate::ast::{lemma_expr_below, lemma_stmt_below, AstView};
use crate::environment;
use crate::environment::{ancestor, chained, EnvironmentView};
use crate::expr::{all_below, ExprView};
use crate::lox_function::LoxFunction;
use crate::lox_type::Value;
use crate::machine;
use crate::machine::{
    fitting, statements_of, valid, ControlView, EventView, FrameView, Machine, Source, };
use crate::safety::{
    declared_by, lemma_safe_expr_carries, lemma_safe_exprs_carries, lemma_safe_stmt_carries,
    lemma_safe_stmts_carries, lemma_within_push, params_names, safe_expr, safe_exprs, safe_stmt, safe_stmts, use_safe, with_name, within, Names, Table,
};
use crate::stmt::{plain, StmtView};
use crate::token::Token;

verus! {

/// The names bound in the local environments around `env`, from the
/// outermost one, which lies in the globals, to `env` itself.
pub open spec fn names_of(envs: Seq<EnvironmentView>, env: usize) -> Names
    decreases env,
{
    if env == 0 || env >= envs.len() {
        Seq::empty()
    } else {
        match envs[env as int].enclosing {
            Some(outer) => if outer < env {
                names_of(envs, outer).push(envs[env as int].values.dom())
            } else {
                Seq::empty()
            },
            None => Seq::empty(),
        }
    }
}

/// `later` holds the environments of `envs`, each inside the same one and
/// with the same names or more.
pub open spec fn grown(envs: Seq<EnvironmentView>, later: Seq<EnvironmentView>) -> bool {
    &&& envs.len() <= later.len()
    &&& forall|i: int|
        0 <= i < envs.len() ==> {
            &&& (#[trigger] later[i]).enclosing == envs[i].enclosing
            &&& envs[i].values.dom().subset_of(later[i].values.dom())
        }
}

/// Names that are bound stay bound when the environments grow.
pub proof fn lemma_names_grow(envs: Seq<EnvironmentView>, later: Seq<EnvironmentView>, env: usize)
    requires
        grown(envs, later),
        env < envs.len(),
    ensures
        within(names_of(envs, env), names_of(later, env)),
    decreases env,
{
    if env != 0 {
        assert(later[env as int].enclosing == envs[env as int].enclosing);
        match envs[env as int].enclosing {
            Some(outer) => {
                if outer < env {
                    lemma_names_grow(envs, later, outer);
                    let a = names_of(envs, env);
                    let b = names_of(later, env);
                    assert forall|i: int| 0 <= i < a.len() implies (#[trigger] a[i]).subset_of(
                        b[i],
                    ) by {
                        if i < a.len() - 1 {
                            assert(names_of(envs, outer)[i].subset_of(names_of(later, outer)[i]));
                        }
                    }
                }
            },
            None => {},
        }
    }
}

/// Around each of the first `bound` environments, the names of `envs`
/// are names of `wider`.
pub open spec fn names_kept(envs: Seq<EnvironmentView>, wider: Seq<EnvironmentView>, bound: int)
    -> bool {
    forall|e: usize| e < bound ==> within(#[trigger] names_of(envs, e), names_of(wider, e))
}

/// Environments that grow keep their names.
pub proof fn lemma_grown_keeps(envs: Seq<EnvironmentView>, wider: Seq<EnvironmentView>)
    requires
        grown(envs, wider),
    ensures
        names_kept(envs, wider, envs.len() as int),
{
    assert forall|e: usize| e < envs.len() implies within(
        #[trigger] names_of(envs, e),
        names_of(wider, e),
    ) by {
        lemma_names_grow(envs, wider, e);
    }
}

/// Without the last environment the others keep their names.
pub proof fn lemma_prefix_names(envs: Seq<EnvironmentView>, env: usize)
    requires
        chained(envs),
        env < envs.len() - 1,
    ensures
        names_of(envs.drop_last(), env) == names_of(envs, env),
    decreases env,
{
    let fewer = envs.drop_last();
    if env != 0 {
        assert(fewer[env as int] == envs[env as int]);
        assert(envs[env as int].enclosing is Some);
        lemma_prefix_names(envs, envs[env as int].enclosing->0);
    }
}

/// Without the last environment the others keep their names.
pub proof fn lemma_prefix_keeps(envs: Seq<EnvironmentView>)
    requires
        chained(envs),
        envs.len() > 1,
    ensures
        names_kept(envs, envs.drop_last(), envs.len() - 1),
        chained(envs.drop_last()),
{
    let fewer = envs.drop_last();
    assert forall|e: usize| e < envs.len() - 1 implies within(
        #[trigger] names_of(envs, e),
        names_of(fewer, e),
    ) by {
        lemma_prefix_names(envs, e);
    }
    assert forall|i: int| 0 < i < fewer.len() implies (#[trigger] fewer[i]).enclosing is Some
        && fewer[i].enclosing->0 < i by {
        assert(fewer[i] == envs[i]);
        assert(envs[i].enclosing is Some);
    }
}

/// The environment at a distance below the number of local environments
/// is there, and its names are those that stand at that distance.
pub proof fn lemma_names_ancestor(envs: Seq<EnvironmentView>, env: usize, distance: nat)
    requires
        chained(envs),
        env < envs.len(),
        distance < names_of(envs, env).len(),
    ensures
        ancestor(envs, env, distance) matches Some(a) && a < envs.len() && names_of(envs, env)[
            names_of(envs, env).len() - 1 - distance
        ] == envs[a as int].values.dom(),
    decreases env,
{
    if env != 0 {
        match envs[env as int].enclosing {
            Some(outer) => {
                if outer < env && distance > 0 {
                    lemma_names_ancestor(envs, outer, (distance - 1) as nat);
                }
            },
            None => {},
        }
    }
}

/// The list of statements is one of the program's, with every statement
/// in it.
pub open spec fn list_ok(ast: AstView, program: Seq<usize>, source: Source) -> bool {
    match source {
        Source::Program => true,
        Source::Block { stmt } => stmt < ast.stmts.len() && ast.stmts[stmt as int] is Block,
        Source::Body { stmt } => stmt < ast.stmts.len() && ast.stmts[stmt as int] is Function,
    }
}

/// The statements of a list.
pub open spec fn list_of(ast: AstView, program: Seq<usize>, source: Source) -> Seq<usize> {
    match source {
        Source::Program => program,
        Source::Block { stmt } => match ast.stmts[stmt as int] {
            StmtView::Block { statements } => statements,
            _ => Seq::empty(),
        },
        Source::Body { stmt } => match ast.stmts[stmt as int] {
            StmtView::Function { name, params, body } => body,
            _ => Seq::empty(),
        },
    }
}

/// The body of the function is safe for the names around its closure and
/// those of its parameters.
pub open spec fn closure_safe(
    ast: AstView,
    table: Table,
    envs: Seq<EnvironmentView>,
    f: LoxFunction,
) -> bool {
    match ast.stmts[f.declaration as int] {
        StmtView::Function { name, params, body } => safe_stmts(
            ast,
            table,
            body,
            0,
            names_of(envs, f.closure).push(params_names(params)),
        ),
        _ => true,
    }
}

/// What the frame will run is safe for the names around the environment
/// it will run in.
pub open spec fn frame_safe(
    ast: AstView,
    table: Table,
    envs: Seq<EnvironmentView>,
    program: Seq<usize>,
    frame: FrameView,
) -> bool {
    match frame {
        FrameView::BinaryRight { expr, environment } => match ast.exprs[expr as int] {
            ExprView::Binary { left, operator, right } => safe_expr(
                ast,
                table,
                right,
                names_of(envs, environment),
            ),
            _ => true,
        },
        FrameView::Logical { expr, environment } => match ast.exprs[expr as int] {
            ExprView::Logical { left, operator, right } => safe_expr(
                ast,
                table,
                right,
                names_of(envs, environment),
            ),
            _ => true,
        },
        FrameView::Assign { expr, environment } => match ast.exprs[expr as int] {
            ExprView::Assign { name, value } => use_safe(
                table,
                expr,
                name.lexeme@,
                names_of(envs, environment),
                false,
            ),
            _ => true,
        },
        FrameView::Callee { expr, environment } => match ast.exprs[expr as int] {
            ExprView::Call { callee, paren, arguments } => safe_exprs(
                ast,
                table,
                arguments,
                0,
                names_of(envs, environment),
            ),
            _ => true,
        },
        FrameView::Arguments { expr, environment, callee, values } => match ast.exprs[expr as int] {
            ExprView::Call { callee: _, paren, arguments } => safe_exprs(
                ast,
                table,
                arguments,
                values.len() + 1,
                names_of(envs, environment),
            ),
            _ => true,
        },
        FrameView::If { stmt, environment } => match ast.stmts[stmt as int] {
            StmtView::If { condition, then_branch, else_branch } => {
                &&& plain(ast.stmts[then_branch as int])
                &&& safe_stmt(ast, table, then_branch, names_of(envs, environment))
                &&& match else_branch {
                    Some(e) => plain(ast.stmts[e as int]) && safe_stmt(
                        ast,
                        table,
                        e,
                        names_of(envs, environment),
                    ),
                    None => true,
                }
            },
            _ => true,
        },
        FrameView::WhileCondition { stmt, environment } => safe_stmt(
            ast,
            table,
            stmt,
            names_of(envs, environment),
        ),
        FrameView::WhileBody { stmt, environment } => safe_stmt(
            ast,
            table,
            stmt,
            names_of(envs, environment),
        ),
        FrameView::Sequence { source, next, environment } => {
            &&& list_ok(ast, program, source)
            &&& safe_stmts(
                ast,
                table,
                list_of(ast, program, source),
                next as nat,
                names_of(envs, environment),
            )
        },
        FrameView::Initializer { source, next, environment } => {
            let list = list_of(ast, program, source);
            &&& list_ok(ast, program, source)
            &&& next < list.len()
            &&& safe_stmts(
                ast,
                table,
                list,
                (next + 1) as nat,
                declared_by(ast.stmts[list[next as int] as int], names_of(envs, environment)),
            )
        },
        _ => true,
    }
}

/// What the control will run is safe for the names around the environment
/// it will run in. A statement that is executed on its own is no
/// declaration.
pub open spec fn control_safe(
    ast: AstView,
    table: Table,
    envs: Seq<EnvironmentView>,
    control: ControlView,
) -> bool {
    match control {
        ControlView::Evaluate { expr, environment } => safe_expr(
            ast,
            table,
            expr,
            names_of(envs, environment),
        ),
        ControlView::Execute { stmt, environment } => plain(ast.stmts[stmt as int]) && safe_stmt(
            ast,
            table,
            stmt,
            names_of(envs, environment),
        ),
        _ => true,
    }
}

/// The bodies of all function values are safe.
pub open spec fn closures_safe(
    ast: AstView,
    table: Table,
    envs: Seq<EnvironmentView>,
    functions: Seq<LoxFunction>,
) -> bool {
    forall|h: int| 0 <= h < functions.len() ==> closure_safe(ast, table, envs, #[trigger] functions[h])
}

/// All frames are safe.
pub open spec fn frames_safe(
    ast: AstView,
    table: Table,
    envs: Seq<EnvironmentView>,
    program: Seq<usize>,
    frames: Seq<FrameView>,
) -> bool {
    forall|i: int|
        0 <= i < frames.len() ==> frame_safe(ast, table, envs, program, #[trigger] frames[i])
}

/// What the machine knows of the uses of variables, with the uses `seen`
/// that are resolved.
pub open spec fn table_of(m: Machine, seen: Set<usize>) -> Table {
    Table { locals: m.locals, seen }
}

/// The machine is sound: all that it will run is safe.
pub open spec fn sound(ast: AstView, m: Machine, seen: Set<usize>) -> bool {
    &&& closures_safe(ast, table_of(m, seen), m.environments, m.functions)
    &&& frames_safe(ast, table_of(m, seen), m.environments, m.program, m.frames)
    &&& control_safe(ast, table_of(m, seen), m.environments, m.control)
}

/// The machine has no more environments and function values than a vector
/// can hold.
pub open spec fn fits(m: Machine) -> bool {
    m.environments.len() <= usize::MAX && m.functions.len() <= usize::MAX
}

/// How a sound machine reads a variable. If the resolver found a distance
/// for the expression, the environment at that distance is there and binds
/// the name, and the value is read from it. If the resolver found none,
/// the value is read from the globals. It is never both.
pub proof fn lemma_variable_lookup(
    ast: AstView,
    m: Machine,
    seen: Set<usize>,
    expr: usize,
    environment: usize,
)
    requires
        fitting(ast, m),
        sound(ast, m, seen),
        m.control == (ControlView::Evaluate { expr, environment }),
        ast.exprs[expr as int] is Variable,
    ensures
        ({
            let name = ast.exprs[expr as int]->Variable_name;
            let found = ancestor(m.environments, environment, m.locals[expr] as nat);
            let read = machine::look_up_variable(m, name, expr, environment);
            if m.locals.contains_key(expr) {
                &&& found is Some
                &&& m.environments[found->0 as int].values.contains_key(name.lexeme@)
                &&& read == Ok::<Value, crate::interpreter::RuntimeErrorView>(
                    m.environments[found->0 as int].values[name.lexeme@],
                )
            } else {
                read == environment::get(m.environments, 0, name)
            }
        }),
{
    if m.locals.contains_key(expr) {
        let name = ast.exprs[expr as int]->Variable_name;
        let names = names_of(m.environments, environment);
        assert(safe_expr(ast, table_of(m, seen), expr, names));
        assert(use_safe(table_of(m, seen), expr, name.lexeme@, names, true));
        lemma_names_ancestor(m.environments, environment, m.locals[expr] as nat);
    }
}

/// How a sound machine assigns to a variable. If the resolver found a
/// distance for the expression, the environment at that distance is there,
/// and the value is bound to the name in it. If the resolver found none,
/// the assignment goes to the globals. It is never both.
pub proof fn lemma_variable_assignment(
    ast: AstView,
    m: Machine,
    seen: Set<usize>,
    expr: usize,
    environment: usize,
    value: Value,
)
    requires
        fitting(ast, m),
        sound(ast, m, seen),
        m.control == (ControlView::Deliver { value }),
        m.frames.len() > 0,
        m.frames.last() == (FrameView::Assign { expr, environment }),
    ensures
        ({
            let name = ast.exprs[expr as int]->Assign_name;
            let found = ancestor(m.environments, environment, m.locals[expr] as nat);
            let next = machine::step(ast, m, EventView::Nothing).machine;
            if m.locals.contains_key(expr) {
                &&& found is Some
                &&& next.environments == environment::define(
                    m.environments,
                    found->0,
                    name.lexeme@,
                    value,
                )
            } else {
                next.environments == environment::assign(m.environments, 0, name, value)
            }
        }),
{
    let frame = m.frames[m.frames.len() - 1];
    assert(machine::frame_ok(ast, m.environments.len(), frame));
    assert(frame_safe(ast, table_of(m, seen), m.environments, m.program, frame));
    if m.locals.contains_key(expr) {
        lemma_names_ancestor(m.environments, environment, m.locals[expr] as nat);
    }
}

/// The statements of a list are statements of the program.
pub proof fn lemma_list_below(ast: AstView, program: Seq<usize>, source: Source)
    requires
        ast.wf(),
        all_below(program, ast.stmts.len() as int),
        machine::source_ok(ast, source),
    ensures
        all_below(list_of(ast, program, source), ast.stmts.len() as int),
{
    match source {
        Source::Program => {},
        Source::Block { stmt } => {
            lemma_stmt_below(ast, stmt as int);
        },
        Source::Body { stmt } => {
            lemma_stmt_below(ast, stmt as int);
        },
    }
}

/// A safe closure stays safe when the program gets more nodes, the table
/// more uses, and the environments more names.
pub proof fn lemma_closure_carries(
    ast: AstView,
    later: AstView,
    table: Table,
    more: Table,
    envs: Seq<EnvironmentView>,
    wider: Seq<EnvironmentView>,
    bound: int,
    f: LoxFunction,
)
    requires
        ast.wf(),
        later.wf(),
        later.extends(ast),
        table.kept_by(more),
        0 <= bound,
        names_kept(envs, wider, bound),
        machine::function_ok(ast, bound as nat, f),
        closure_safe(ast, table, envs, f),
    ensures
        closure_safe(later, more, wider, f),
{
    lemma_stmt_below(ast, f.declaration as int);
    assert(later.stmts[f.declaration as int] == ast.stmts[f.declaration as int]);
    match ast.stmts[f.declaration as int] {
        StmtView::Function { name, params, body } => {
            assert(within(names_of(envs, f.closure), names_of(wider, f.closure)));
            lemma_within_push(names_of(envs, f.closure), names_of(wider, f.closure), params_names(params));
            lemma_safe_stmts_carries(
                ast,
                later,
                table,
                more,
                body,
                0,
                names_of(envs, f.closure).push(params_names(params)),
                names_of(wider, f.closure).push(params_names(params)),
            );
        },
        _ => {},
    }
}

/// A safe frame stays safe when the program gets more nodes, the table
/// more uses, and the environments more names.
pub proof fn lemma_frame_carries(
    ast: AstView,
    later: AstView,
    table: Table,
    more: Table,
    envs: Seq<EnvironmentView>,
    wider: Seq<EnvironmentView>,
    bound: int,
    program: Seq<usize>,
    frame: FrameView,
)
    requires
        ast.wf(),
        later.wf(),
        later.extends(ast),
        table.kept_by(more),
        0 <= bound,
        names_kept(envs, wider, bound),
        all_below(program, ast.stmts.len() as int),
        machine::frame_ok(ast, bound as nat, frame),
        frame_safe(ast, table, envs, program, frame),
    ensures
        frame_safe(later, more, wider, program, frame),
{
    match frame {
        FrameView::BinaryRight { expr, environment } => {
            lemma_expr_below(ast, expr as int);
            assert(later.exprs[expr as int] == ast.exprs[expr as int]);
            assert(within(names_of(envs, environment), names_of(wider, environment)));
            match ast.exprs[expr as int] {
                ExprView::Binary { left, operator, right } => {
                    lemma_safe_expr_carries(
                        ast,
                        later,
                        table,
                        more,
                        right,
                        names_of(envs, environment),
                        names_of(wider, environment),
                    );
                },
                _ => {},
            }
        },
        FrameView::Logical { expr, environment } => {
            lemma_expr_below(ast, expr as int);
            assert(later.exprs[expr as int] == ast.exprs[expr as int]);
            assert(within(names_of(envs, environment), names_of(wider, environment)));
            match ast.exprs[expr as int] {
                ExprView::Logical { left, operator, right } => {
                    lemma_safe_expr_carries(
                        ast,
                        later,
                        table,
                        more,
                        right,
                        names_of(envs, environment),
                        names_of(wider, environment),
                    );
                },
                _ => {},
            }
        },
        FrameView::Assign { expr, environment } => {
            assert(later.exprs[expr as int] == ast.exprs[expr as int]);
            assert(within(names_of(envs, environment), names_of(wider, environment)));
            assert(table.seen.contains(expr));
        },
        FrameView::Callee { expr, environment } => {
            lemma_expr_below(ast, expr as int);
            assert(later.exprs[expr as int] == ast.exprs[expr as int]);
            assert(within(names_of(envs, environment), names_of(wider, environment)));
            match ast.exprs[expr as int] {
                ExprView::Call { callee, paren, arguments } => {
                    lemma_safe_exprs_carries(
                        ast,
                        later,
                        table,
                        more,
                        arguments,
                        0,
                        names_of(envs, environment),
                        names_of(wider, environment),
                    );
                },
                _ => {},
            }
        },
        FrameView::Arguments { expr, environment, callee, values } => {
            lemma_expr_below(ast, expr as int);
            assert(later.exprs[expr as int] == ast.exprs[expr as int]);
            assert(within(names_of(envs, environment), names_of(wider, environment)));
            match ast.exprs[expr as int] {
                ExprView::Call { callee: _, paren, arguments } => {
                    lemma_safe_exprs_carries(
                        ast,
                        later,
                        table,
                        more,
                        arguments,
                        values.len() + 1,
                        names_of(envs, environment),
                        names_of(wider, environment),
                    );
                },
                _ => {},
            }
        },
        FrameView::If { stmt, environment } => {
            lemma_stmt_below(ast, stmt as int);
            assert(later.stmts[stmt as int] == ast.stmts[stmt as int]);
            assert(within(names_of(envs, environment), names_of(wider, environment)));
            match ast.stmts[stmt as int] {
                StmtView::If { condition, then_branch, else_branch } => {
                    assert(later.stmts[then_branch as int] == ast.stmts[then_branch as int]);
                    lemma_safe_stmt_carries(
                        ast,
                        later,
                        table,
                        more,
                        then_branch,
                        names_of(envs, environment),
                        names_of(wider, environment),
                    );
                    match else_branch {
                        Some(e) => {
                            assert(later.stmts[e as int] == ast.stmts[e as int]);
                            lemma_safe_stmt_carries(
                                ast,
                                later,
                                table,
                                more,
                                e,
                                names_of(envs, environment),
                                names_of(wider, environment),
                            );
                        },
                        None => {},
                    }
                },
                _ => {},
            }
        },
        FrameView::WhileCondition { stmt, environment } => {
            assert(within(names_of(envs, environment), names_of(wider, environment)));
            lemma_safe_stmt_carries(
                ast,
                later,
                table,
                more,
                stmt,
                names_of(envs, environment),
                names_of(wider, environment),
            );
        },
        FrameView::WhileBody { stmt, environment } => {
            assert(within(names_of(envs, environment), names_of(wider, environment)));
            lemma_safe_stmt_carries(
                ast,
                later,
                table,
                more,
                stmt,
                names_of(envs, environment),
                names_of(wider, environment),
            );
        },
        FrameView::Sequence { source, next, environment } => {
            lemma_list_below(ast, program, source);
            lemma_list_same(ast, later, program, source);
            assert(within(names_of(envs, environment), names_of(wider, environment)));
            lemma_safe_stmts_carries(
                ast,
                later,
                table,
                more,
                list_of(ast, program, source),
                next as nat,
                names_of(envs, environment),
                names_of(wider, environment),
            );
        },
        FrameView::Initializer { source, next, environment } => {
            lemma_list_below(ast, program, source);
            lemma_list_same(ast, later, program, source);
            assert(within(names_of(envs, environment), names_of(wider, environment)));
            let list = list_of(ast, program, source);
            let s = ast.stmts[list[next as int] as int];
            assert(later.stmts[list[next as int] as int] == s);
            crate::safety::lemma_within_declared(
                s,
                names_of(envs, environment),
                names_of(wider, environment),
            );
            lemma_safe_stmts_carries(
                ast,
                later,
                table,
                more,
                list,
                (next + 1) as nat,
                declared_by(s, names_of(envs, environment)),
                declared_by(s, names_of(wider, environment)),
            );
        },
        _ => {},
    }
}

/// A list of statements stays what it is when the program gets more
/// nodes.
pub proof fn lemma_list_same(ast: AstView, later: AstView, program: Seq<usize>, source: Source)
    requires
        later.extends(ast),
        machine::source_ok(ast, source),
        list_ok(ast, program, source),
    ensures
        list_of(later, program, source) == list_of(ast, program, source),
        list_ok(later, program, source),
{
    match source {
        Source::Program => {},
        Source::Block { stmt } => {
            assert(later.stmts[stmt as int] == ast.stmts[stmt as int]);
        },
        Source::Body { stmt } => {
            assert(later.stmts[stmt as int] == ast.stmts[stmt as int]);
        },
    }
}

/// A safe control stays safe when the program gets more nodes, the table
/// more uses, and the environments more names.
pub proof fn lemma_control_carries(
    ast: AstView,
    later: AstView,
    table: Table,
    more: Table,
    envs: Seq<EnvironmentView>,
    wider: Seq<EnvironmentView>,
    bound: int,
    control: ControlView,
)
    requires
        ast.wf(),
        later.wf(),
        later.extends(ast),
        table.kept_by(more),
        0 <= bound,
        names_kept(envs, wider, bound),
        machine::control_ok(ast, bound as nat, control),
        control_safe(ast, table, envs, control),
    ensures
        control_safe(later, more, wider, control),
{
    match control {
        ControlView::Evaluate { expr, environment } => {
            assert(within(names_of(envs, environment), names_of(wider, environment)));
            lemma_safe_expr_carries(
                ast,
                later,
                table,
                more,
                expr,
                names_of(envs, environment),
                names_of(wider, environment),
            );
        },
        ControlView::Execute { stmt, environment } => {
            assert(within(names_of(envs, environment), names_of(wider, environment)));
            assert(later.stmts[stmt as int] == ast.stmts[stmt as int]);
            lemma_safe_stmt_carries(
                ast,
                later,
                table,
                more,
                stmt,
                names_of(envs, environment),
                names_of(wider, environment),
            );
        },
        _ => {},
    }
}

/// A sound machine stays sound when the program gets more nodes, the
/// table more uses, and the environments more names.
pub proof fn lemma_sound_carries(
    ast: AstView,
    later: AstView,
    m: Machine,
    seen: Set<usize>,
    locals: Map<usize, usize>,
    more: Set<usize>,
    wider: Seq<EnvironmentView>,
    bound: int,
)
    requires
        ast.wf(),
        later.wf(),
        later.extends(ast),
        0 <= bound,
        all_below(m.program, ast.stmts.len() as int),
        machine::functions_ok(ast, bound as nat, m.functions),
        machine::frames_ok(ast, bound as nat, m.frames),
        machine::control_ok(ast, bound as nat, m.control),
        table_of(m, seen).kept_by(Table { locals, seen: more }),
        names_kept(m.environments, wider, bound),
        sound(ast, m, seen),
    ensures
        sound(later, Machine { locals, environments: wider, ..m }, more),
{
    let table = table_of(m, seen);
    let kept = Table { locals, seen: more };
    let envs = m.environments;
    assert forall|h: int| 0 <= h < m.functions.len() implies closure_safe(
        later,
        kept,
        wider,
        #[trigger] m.functions[h],
    ) by {
        assert(machine::function_ok(ast, bound as nat, m.functions[h]));
        lemma_closure_carries(ast, later, table, kept, envs, wider, bound, m.functions[h]);
    }
    assert forall|i: int| 0 <= i < m.frames.len() implies frame_safe(
        later,
        kept,
        wider,
        m.program,
        #[trigger] m.frames[i],
    ) by {
        assert(machine::frame_ok(ast, bound as nat, m.frames[i]));
        lemma_frame_carries(ast, later, table, kept, envs, wider, bound, m.program, m.frames[i]);
    }
    lemma_control_carries(ast, later, table, kept, envs, wider, bound, m.control);
}

/// Without its control a valid and sound machine is valid and sound.
pub proof fn lemma_rest(ast: AstView, m: Machine, seen: Set<usize>)
    requires
        fitting(ast, m),
        sound(ast, m, seen),
    ensures
        fitting(ast, m.with_control(ControlView::Idle)),
        sound(ast, m.with_control(ControlView::Idle), seen),
{
}

/// Without its top frame a valid and sound machine is valid and sound,
/// and the frame was valid and safe.
pub proof fn lemma_popped(ast: AstView, m: Machine, seen: Set<usize>)
    requires
        fitting(ast, m),
        sound(ast, m, seen),
        m.frames.len() > 0,
    ensures
        fitting(ast, m.popped()),
        sound(ast, m.popped(), seen),
        machine::frame_ok(ast, m.environments.len(), m.frames.last()),
        frame_safe(ast, table_of(m, seen), m.environments, m.program, m.frames.last()),
{
    let rest = m.popped();
    assert forall|i: int| 0 <= i < rest.frames.len() implies machine::frame_ok(
        ast,
        rest.environments.len(),
        #[trigger] rest.frames[i],
    ) by {
        assert(rest.frames[i] == m.frames[i]);
    }
    assert forall|i: int| 0 <= i < rest.frames.len() implies frame_safe(
        ast,
        table_of(m, seen),
        rest.environments,
        rest.program,
        #[trigger] rest.frames[i],
    ) by {
        assert(rest.frames[i] == m.frames[i]);
    }
    assert(m.frames.last() == m.frames[m.frames.len() - 1]);
}

/// A sound machine with one more safe frame is sound.
pub proof fn lemma_pushed(ast: AstView, m: Machine, seen: Set<usize>, frame: FrameView)
    requires
        fitting(ast, m),
        sound(ast, m, seen),
        machine::frame_ok(ast, m.environments.len(), frame),
        frame_safe(ast, table_of(m, seen), m.environments, m.program, frame),
    ensures
        fitting(ast, m.pushed(frame)),
        sound(ast, m.pushed(frame), seen),
{
    let next = m.pushed(frame);
    assert forall|i: int| 0 <= i < next.frames.len() implies machine::frame_ok(
        ast,
        next.environments.len(),
        #[trigger] next.frames[i],
    ) by {
        if i < m.frames.len() {
            assert(next.frames[i] == m.frames[i]);
        }
    }
    assert forall|i: int| 0 <= i < next.frames.len() implies frame_safe(
        ast,
        table_of(m, seen),
        next.environments,
        next.program,
        #[trigger] next.frames[i],
    ) by {
        if i < m.frames.len() {
            assert(next.frames[i] == m.frames[i]);
        }
    }
}

/// A sound machine that goes on with a safe control is sound.
pub proof fn lemma_go(ast: AstView, m: Machine, seen: Set<usize>, control: ControlView)
    requires
        sound(ast, m, seen),
        control_safe(ast, table_of(m, seen), m.environments, control),
    ensures
        sound(ast, m.with_control(control), seen),
        sound(ast, machine::go(m, control).machine, seen),
{
}

/// A sound machine that stops is sound.
pub proof fn lemma_stopped(ast: AstView, m: Machine, seen: Set<usize>)
    requires
        sound(ast, m, seen),
    ensures
        sound(ast, m.stopped(), seen),
{
}

/// A sound machine whose environments get more names is sound.
pub proof fn lemma_wider(
    ast: AstView,
    m: Machine,
    seen: Set<usize>,
    wider: Seq<EnvironmentView>,
)
    requires
        fitting(ast, m),
        sound(ast, m, seen),
        grown(m.environments, wider),
        chained(wider),
    ensures
        fitting(ast, m.with_environments(wider)),
        sound(ast, m.with_environments(wider), seen),
{
    lemma_grown_keeps(m.environments, wider);
    lemma_sound_carries(ast, ast, m, seen, m.locals, seen, wider, m.environments.len() as int);
    assert(m.with_environments(wider) == Machine { locals: m.locals, environments: wider, ..m });
    let next = m.with_environments(wider);
    assert forall|h: int| 0 <= h < next.functions.len() implies machine::function_ok(
        ast,
        next.environments.len(),
        #[trigger] next.functions[h],
    ) by {
        assert(machine::function_ok(ast, m.environments.len(), m.functions[h]));
    }
    assert forall|i: int| 0 <= i < next.frames.len() implies machine::frame_ok(
        ast,
        next.environments.len(),
        #[trigger] next.frames[i],
    ) by {
        assert(machine::frame_ok(ast, m.environments.len(), m.frames[i]));
    }
}

/// A definition makes the environments grow, and the name it binds is
/// bound around the environment.
pub proof fn lemma_define_grown(
    envs: Seq<EnvironmentView>,
    env: usize,
    name: Seq<char>,
    value: Value,
)
    requires
        chained(envs),
        env < envs.len(),
    ensures
        grown(envs, environment::define(envs, env, name, value)),
        chained(environment::define(envs, env, name, value)),
        within(
            with_name(names_of(envs, env), name),
            names_of(environment::define(envs, env, name, value), env),
        ),
{
    let wider = environment::define(envs, env, name, value);
    assert forall|i: int| 0 < i < wider.len() implies (#[trigger] wider[i]).enclosing is Some
        && wider[i].enclosing->0 < i by {
        assert(envs[i].enclosing is Some);
    }
    if env != 0 {
        let outer = envs[env as int].enclosing->0;
        assert(envs[env as int].enclosing is Some);
        lemma_names_grow(envs, wider, outer);
        let a = with_name(names_of(envs, env), name);
        let b = names_of(wider, env);
        assert forall|i: int| 0 <= i < a.len() implies (#[trigger] a[i]).subset_of(b[i]) by {
            if i < a.len() - 1 {
                assert(names_of(envs, outer)[i].subset_of(names_of(wider, outer)[i]));
            }
        }
    }
}

/// To mark an environment as kept changes none of the names.
pub proof fn lemma_capture_grown(envs: Seq<EnvironmentView>, env: usize)
    requires
        chained(envs),
        env < envs.len(),
    ensures
        grown(envs, environment::capture(envs, env)),
        chained(environment::capture(envs, env)),
{
    let wider = environment::capture(envs, env);
    assert forall|i: int| 0 < i < wider.len() implies (#[trigger] wider[i]).enclosing is Some
        && wider[i].enclosing->0 < i by {
        assert(envs[i].enclosing is Some);
    }
}

/// Environments that grow and grow again have grown.
pub proof fn lemma_grown_chain(
    a: Seq<EnvironmentView>,
    b: Seq<EnvironmentView>,
    c: Seq<EnvironmentView>,
)
    requires
        grown(a, b),
        grown(b, c),
    ensures
        grown(a, c),
{
    assert forall|i: int| 0 <= i < a.len() implies {
        &&& (#[trigger] c[i]).enclosing == a[i].enclosing
        &&& a[i].values.dom().subset_of(c[i].values.dom())
    } by {
        assert(b[i].enclosing == a[i].enclosing);
        assert(c[i].enclosing == b[i].enclosing);
    }
}

/// A new environment makes the environments grow, and its names stand
/// innermost around it.
pub proof fn lemma_push_grown(envs: Seq<EnvironmentView>, inner: EnvironmentView)
    requires
        chained(envs),
        inner.enclosing is Some,
        inner.enclosing->0 < envs.len(),
        envs.len() <= usize::MAX,
    ensures
        grown(envs, envs.push(inner)),
        chained(envs.push(inner)),
        within(
            names_of(envs, inner.enclosing->0).push(inner.values.dom()),
            names_of(envs.push(inner), envs.len() as usize),
        ),
{
    let wider = envs.push(inner);
    let outer = inner.enclosing->0;
    assert forall|i: int| 0 < i < wider.len() implies (#[trigger] wider[i]).enclosing is Some
        && wider[i].enclosing->0 < i by {
        if i < envs.len() {
            assert(envs[i].enclosing is Some);
        }
    }
    lemma_names_grow(envs, wider, outer);
    lemma_within_push(names_of(envs, outer), names_of(wider, outer), inner.values.dom());
}

/// The parameters that are bound are names of the environment.
pub proof fn lemma_bind_params(
    e: EnvironmentView,
    params: Seq<Token>,
    values: Seq<Value>,
    from: nat,
)
    requires
        params.len() <= values.len(),
    ensures
        machine::bind_params(e, params, values, from).enclosing == e.enclosing,
        e.values.dom().subset_of(machine::bind_params(e, params, values, from).values.dom()),
        forall|i: int|
            from <= i < params.len() ==> machine::bind_params(
                e,
                params,
                values,
                from,
            ).values.contains_key(#[trigger] params[i].lexeme@),
    decreases params.len() - from,
{
    if from < params.len() {
        let next = e.define(params[from as int].lexeme@, values[from as int]);
        lemma_bind_params(next, params, values, from + 1);
        assert(next.values.contains_key(params[from as int].lexeme@));
    }
}

/// A sound machine that keeps a safe frame and evaluates a safe
/// expression is sound.
pub proof fn lemma_evaluate_with(
    ast: AstView,
    m: Machine,
    seen: Set<usize>,
    frame: FrameView,
    expr: usize,
    environment: usize,
)
    requires
        fitting(ast, m),
        sound(ast, m, seen),
        machine::frame_ok(ast, m.environments.len(), frame),
        frame_safe(ast, table_of(m, seen), m.environments, m.program, frame),
        safe_expr(ast, table_of(m, seen), expr, names_of(m.environments, environment)),
    ensures
        sound(ast, machine::evaluate_with(m, frame, expr, environment).machine, seen),
{
    lemma_pushed(ast, m, seen, frame);
    lemma_go(ast, m.pushed(frame), seen, ControlView::Evaluate { expr, environment });
}

/// The start of the evaluation of a safe expression keeps the machine
/// sound.
pub proof fn lemma_evaluate_sound(
    ast: AstView,
    m: Machine,
    seen: Set<usize>,
    expr: usize,
    environment: usize,
)
    requires
        fitting(ast, m),
        sound(ast, m, seen),
        expr < ast.exprs.len(),
        environment < m.environments.len(),
        safe_expr(ast, table_of(m, seen), expr, names_of(m.environments, environment)),
    ensures
        sound(ast, machine::evaluate(ast, m, expr, environment).machine, seen),
{
    let table = table_of(m, seen);
    let names = names_of(m.environments, environment);
    lemma_expr_below(ast, expr as int);
    match ast.exprs[expr as int] {
        ExprView::Literal { value } => {},
        ExprView::Grouping { expression } => {
            lemma_go(ast, m, seen, ControlView::Evaluate { expr: expression, environment });
        },
        ExprView::Unary { operator, right } => {
            lemma_evaluate_with(ast, m, seen, FrameView::Unary { expr }, right, environment);
        },
        ExprView::Binary { left, operator, right } => {
            lemma_evaluate_with(
                ast,
                m,
                seen,
                FrameView::BinaryRight { expr, environment },
                left,
                environment,
            );
        },
        ExprView::Logical { left, operator, right } => {
            lemma_evaluate_with(
                ast,
                m,
                seen,
                FrameView::Logical { expr, environment },
                left,
                environment,
            );
        },
        ExprView::Variable { name } => {},
        ExprView::Assign { name, value } => {
            lemma_evaluate_with(
                ast,
                m,
                seen,
                FrameView::Assign { expr, environment },
                value,
                environment,
            );
        },
        ExprView::Call { callee, paren, arguments } => {
            lemma_evaluate_with(
                ast,
                m,
                seen,
                FrameView::Callee { expr, environment },
                callee,
                environment,
            );
        },
    }
}

/// The start of the execution of a safe statement that is no declaration
/// keeps the machine sound.
pub proof fn lemma_execute_sound(
    ast: AstView,
    m: Machine,
    seen: Set<usize>,
    stmt: usize,
    environment: usize,
)
    requires
        fitting(ast, m),
        sound(ast, m, seen),
        stmt < ast.stmts.len(),
        environment < m.environments.len(),
        plain(ast.stmts[stmt as int]),
        safe_stmt(ast, table_of(m, seen), stmt, names_of(m.environments, environment)),
        fits(machine::execute(ast, m, stmt, environment).machine),
    ensures
        sound(ast, machine::execute(ast, m, stmt, environment).machine, seen),
{
    let table = table_of(m, seen);
    let names = names_of(m.environments, environment);
    lemma_stmt_below(ast, stmt as int);
    match ast.stmts[stmt as int] {
        StmtView::Expression { expression } => {
            lemma_evaluate_with(ast, m, seen, FrameView::Expression, expression, environment);
        },
        StmtView::Print { expression } => {
            lemma_evaluate_with(ast, m, seen, FrameView::Print, expression, environment);
        },
        StmtView::Var { name, initializer } => {},
        StmtView::Block { statements } => {
            let inner = m.environments.len() as usize;
            let fresh = environment::fresh(Some(environment));
            let wider = m.environments.push(fresh);
            let frame = FrameView::Sequence { source: Source::Block { stmt }, next: 0, environment: inner };
            lemma_push_grown(m.environments, fresh);
            lemma_wider(ast, m, seen, wider);
            let grown_m = m.with_environments(wider);
            assert(fresh.values.dom() =~= Set::<Seq<char>>::empty());
            lemma_safe_stmts_carries(
                ast,
                ast,
                table,
                table,
                statements,
                0,
                names.push(Set::empty()),
                names_of(wider, inner),
            );
            lemma_pushed(ast, grown_m, seen, frame);
            lemma_go(ast, grown_m.pushed(frame), seen, ControlView::Complete);
        },
        StmtView::If { condition, then_branch, else_branch } => {
            lemma_evaluate_with(
                ast,
                m,
                seen,
                FrameView::If { stmt, environment },
                condition,
                environment,
            );
        },
        StmtView::While { condition, body } => {
            lemma_evaluate_with(
                ast,
                m,
                seen,
                FrameView::WhileCondition { stmt, environment },
                condition,
                environment,
            );
        },
        StmtView::Function { name, params, body } => {},
        StmtView::Return { keyword, value } => {
            lemma_evaluate_with(ast, m, seen, FrameView::Return { stmt }, value, environment);
        },
    }
}

/// The call of a function whose body is safe keeps the machine sound.
pub proof fn lemma_enter_sound(
    ast: AstView,
    m: Machine,
    seen: Set<usize>,
    f: LoxFunction,
    values: Seq<Value>,
)
    requires
        fitting(ast, m),
        sound(ast, m, seen),
        machine::function_ok(ast, m.environments.len(), f),
        closure_safe(ast, table_of(m, seen), m.environments, f),
        values.len() == f.arity,
        fits(machine::enter(ast, m, f, values).machine),
    ensures
        sound(ast, machine::enter(ast, m, f, values).machine, seen),
{
    let table = table_of(m, seen);
    let inner = m.environments.len() as usize;
    let fresh = environment::fresh(Some(f.closure));
    let params = machine::params_of(ast, f.declaration);
    let bound = machine::bind_params(fresh, params, values, 0);
    let wider = m.environments.push(bound);
    let body_frame = FrameView::Sequence {
        source: Source::Body { stmt: f.declaration },
        next: 0,
        environment: inner,
    };
    lemma_stmt_below(ast, f.declaration as int);
    lemma_bind_params(fresh, params, values, 0);
    lemma_push_grown(m.environments, bound);
    lemma_wider(ast, m, seen, wider);
    let grown_m = m.with_environments(wider);
    match ast.stmts[f.declaration as int] {
        StmtView::Function { name, params: _, body } => {
            let around = names_of(m.environments, f.closure);
            assert(params_names(params).subset_of(bound.values.dom())) by {
                assert forall|n: Seq<char>| params_names(params).contains(n) implies bound.values.dom().contains(
                    n,
                ) by {
                    let i = choose|i: int|
                        0 <= i < params.len() && (#[trigger] params[i]).lexeme@ == n;
                    assert(bound.values.contains_key(params[i].lexeme@));
                }
            }
            let t = around.push(params_names(params));
            let mid = around.push(bound.values.dom());
            let u = names_of(wider, inner);
            assert(within(t, u)) by {
                assert forall|i: int| 0 <= i < t.len() implies (#[trigger] t[i]).subset_of(u[i]) by {
                    assert(mid[i].subset_of(u[i]));
                    if i < around.len() {
                        assert(t[i] == mid[i]);
                    }
                }
            }
            lemma_safe_stmts_carries(ast, ast, table, table, body, 0, t, u);
        },
        _ => {},
    }
    lemma_pushed(ast, grown_m, seen, FrameView::Call);
    lemma_pushed(ast, grown_m.pushed(FrameView::Call), seen, body_frame);
    lemma_go(ast, grown_m.pushed(FrameView::Call).pushed(body_frame), seen, ControlView::Complete);
}

/// A call keeps the machine sound.
pub proof fn lemma_call_sound(
    ast: AstView,
    m: Machine,
    seen: Set<usize>,
    paren: Token,
    callee: Value,
    values: Seq<Value>,
)
    requires
        fitting(ast, m),
        sound(ast, m, seen),
        fits(machine::call(ast, m, paren, callee, values).machine),
    ensures
        sound(ast, machine::call(ast, m, paren, callee, values).machine, seen),
{
    match callee {
        Value::Function(handle) => {
            if handle < m.functions.len() {
                let f = m.functions[handle as int];
                assert(machine::function_ok(ast, m.environments.len(), f));
                assert(closure_safe(ast, table_of(m, seen), m.environments, f));
                if values.len() == f.arity {
                    lemma_enter_sound(ast, m, seen, f, values);
                }
            }
        },
        _ => {},
    }
}

/// An assignment keeps the machine sound.
pub proof fn lemma_assign_sound(
    ast: AstView,
    m: Machine,
    seen: Set<usize>,
    name: Token,
    expr: usize,
    environment: usize,
    value: Value,
)
    requires
        fitting(ast, m),
        sound(ast, m, seen),
    ensures
        sound(ast, machine::assign(m, name, expr, environment, value).machine, seen),
{
    let envs = m.environments;
    if m.locals.contains_key(expr) {
        environment::lemma_ancestor_bounds(envs, environment, m.locals[expr] as nat);
        match ancestor(envs, environment, m.locals[expr] as nat) {
            Some(a) => {
                lemma_define_grown(envs, a, name.lexeme@, value);
                lemma_wider(ast, m, seen, environment::define(envs, a, name.lexeme@, value));
            },
            None => {},
        }
    } else {
        environment::lemma_holder_bounds(envs, 0, name.lexeme@);
        match environment::holder(envs, 0, name.lexeme@) {
            Some(h) => {
                lemma_define_grown(envs, h, name.lexeme@, value);
                lemma_wider(ast, m, seen, environment::define(envs, h, name.lexeme@, value));
            },
            None => {},
        }
    }
}

/// The definition of a variable in a list of statements keeps the
/// machine sound.
pub proof fn lemma_initialize_sound(
    ast: AstView,
    m: Machine,
    seen: Set<usize>,
    source: Source,
    next: usize,
    environment: usize,
    value: Value,
)
    requires
        fitting(ast, m),
        sound(ast, m, seen),
        machine::frame_ok(
            ast,
            m.environments.len(),
            FrameView::Initializer { source, next, environment },
        ),
        frame_safe(
            ast,
            table_of(m, seen),
            m.environments,
            m.program,
            FrameView::Initializer { source, next, environment },
        ),
    ensures
        sound(ast, machine::initialize(ast, m, source, next, environment, value).machine, seen),
{
    let table = table_of(m, seen);
    let list = list_of(ast, m.program, source);
    assert(statements_of(ast, m, source) == list);
    lemma_list_below(ast, m.program, source);
    if next < list.len() {
        let stmt = list[next as int];
        match ast.stmts[stmt as int] {
            StmtView::Var { name, initializer } => {
                let wider = environment::define(m.environments, environment, name.lexeme@, value);
                let frame = FrameView::Sequence {
                    source,
                    next: (next + 1) as usize,
                    environment,
                };
                lemma_define_grown(m.environments, environment, name.lexeme@, value);
                lemma_wider(ast, m, seen, wider);
                lemma_safe_stmts_carries(
                    ast,
                    ast,
                    table,
                    table,
                    list,
                    (next + 1) as nat,
                    with_name(names_of(m.environments, environment), name.lexeme@),
                    names_of(wider, environment),
                );
                let grown_m = m.with_environments(wider);
                lemma_list_fits(ast, m.program, source);
                lemma_pushed(ast, grown_m, seen, frame);
                lemma_go(ast, grown_m.pushed(frame), seen, ControlView::Complete);
            },
            _ => {},
        }
    }
}

/// A list of statements is no longer than a vector can be.
pub proof fn lemma_list_fits(ast: AstView, program: Seq<usize>, source: Source)
    requires
        ast.wf(),
        program.len() <= usize::MAX,
        machine::source_ok(ast, source),
    ensures
        list_of(ast, program, source).len() <= usize::MAX,
{
    match source {
        Source::Program => {},
        Source::Block { stmt } => {
            lemma_stmt_below(ast, stmt as int);
        },
        Source::Body { stmt } => {
            lemma_stmt_below(ast, stmt as int);
        },
    }
}

/// The machine after a function declaration in a list of statements is
/// sound, and sound with the frame that goes on behind the declaration.
pub proof fn lemma_declare_sound(
    ast: AstView,
    m: Machine,
    seen: Set<usize>,
    stmt: usize,
    environment: usize,
)
    requires
        fitting(ast, m),
        sound(ast, m, seen),
        stmt < ast.stmts.len(),
        ast.stmts[stmt as int] is Function,
        environment < m.environments.len(),
        m.functions.len() < usize::MAX,
        safe_stmt(ast, table_of(m, seen), stmt, names_of(m.environments, environment)),
    ensures
        fitting(ast, machine::declare(ast, m, stmt, environment)),
        sound(ast, machine::declare(ast, m, stmt, environment), seen),
        grown(m.environments, machine::declare(ast, m, stmt, environment).environments),
        within(
            declared_by(ast.stmts[stmt as int], names_of(m.environments, environment)),
            names_of(machine::declare(ast, m, stmt, environment).environments, environment),
        ),
{
    let table = table_of(m, seen);
    let names = names_of(m.environments, environment);
    lemma_stmt_below(ast, stmt as int);
    match ast.stmts[stmt as int] {
        StmtView::Function { name, params, body } => {
            let handle = m.functions.len() as usize;
            let f = LoxFunction {
                arity: params.len() as u32,
                declaration: stmt,
                closure: environment,
            };
            let defined = environment::define(
                m.environments,
                environment,
                name.lexeme@,
                Value::Function(handle),
            );
            let wider = environment::capture(defined, environment);
            lemma_define_grown(m.environments, environment, name.lexeme@, Value::Function(handle));
            lemma_capture_grown(defined, environment);
            lemma_grown_chain(m.environments, defined, wider);
            lemma_names_grow(defined, wider, environment);
            assert(within(with_name(names, name.lexeme@), names_of(wider, environment))) by {
                let a = with_name(names, name.lexeme@);
                let b = names_of(defined, environment);
                let c = names_of(wider, environment);
                assert forall|i: int| 0 <= i < a.len() implies (#[trigger] a[i]).subset_of(c[i]) by {
                    assert(b[i].subset_of(c[i]));
                }
            }
            lemma_wider(ast, m, seen, wider);
            let grown_m = m.with_environments(wider);
            let next = machine::declare(ast, m, stmt, environment);
            assert(next == Machine { functions: m.functions.push(f), ..grown_m });
            lemma_within_push(
                with_name(names, name.lexeme@),
                names_of(wider, environment),
                params_names(params),
            );
            lemma_safe_stmts_carries(
                ast,
                ast,
                table,
                table,
                body,
                0,
                with_name(names, name.lexeme@).push(params_names(params)),
                names_of(wider, environment).push(params_names(params)),
            );
            assert(closure_safe(ast, table, wider, f));
            assert forall|h: int| 0 <= h < next.functions.len() implies closure_safe(
                ast,
                table,
                wider,
                #[trigger] next.functions[h],
            ) by {
                if h < m.functions.len() {
                    assert(next.functions[h] == grown_m.functions[h]);
                }
            }
            assert forall|h: int| 0 <= h < next.functions.len() implies machine::function_ok(
                ast,
                next.environments.len(),
                #[trigger] next.functions[h],
            ) by {
                if h < m.functions.len() {
                    assert(next.functions[h] == grown_m.functions[h]);
                }
            }
        },
        _ => {},
    }
}

/// Below the top frame are the frames that the environment of the top
/// frame is newer than.
pub proof fn lemma_popped_owner(m: Machine)
    requires
        machine::owners_ok(m.frames),
        m.frames.len() > 0,
    ensures
        machine::owned_by(m.frames.last()) matches Some(e) ==> machine::frames_below(
            m.frames.drop_last(),
            e as int,
        ),
{
    let last = m.frames.len() - 1;
    assert(m.frames.last() == m.frames[last]);
    assert(m.frames.drop_last() =~= m.frames.subrange(0, last));
}

/// A sound machine that gives up the environment of a list of statements
/// is sound.
pub proof fn lemma_released_sound(
    ast: AstView,
    m: Machine,
    seen: Set<usize>,
    source: Source,
    environment: usize,
)
    requires
        fitting(ast, m),
        sound(ast, m, seen),
        m.control is Idle,
        machine::captures_ok(m.environments, m.functions),
        machine::own(source, environment) is Some ==> machine::frames_below(
            m.frames,
            environment as int,
        ),
    ensures
        sound(ast, machine::released(m, source, environment), seen),
{
    let next = machine::released(m, source, environment);
    if next != m {
        let envs = m.environments;
        let fewer = envs.drop_last();
        let bound = envs.len() - 1;
        lemma_prefix_keeps(envs);
        assert forall|h: int| 0 <= h < m.functions.len() implies machine::function_ok(
            ast,
            bound as nat,
            #[trigger] m.functions[h],
        ) by {
            assert(machine::function_ok(ast, envs.len(), m.functions[h]));
            assert(envs[m.functions[h].closure as int].captured);
        }
        assert forall|i: int| 0 <= i < m.frames.len() implies machine::frame_ok(
            ast,
            bound as nat,
            #[trigger] m.frames[i],
        ) by {
            assert(machine::frame_ok(ast, envs.len(), m.frames[i]));
            assert(machine::environment_of(m.frames[i]) matches Some(e) ==> e < bound);
        }
        lemma_sound_carries(ast, ast, m, seen, m.locals, seen, fewer, bound);
        assert(next == Machine { locals: m.locals, environments: fewer, ..m });
    }
}

/// A step of a list of statements keeps the machine sound.
pub proof fn lemma_sequence_sound(
    ast: AstView,
    m: Machine,
    seen: Set<usize>,
    source: Source,
    next: usize,
    environment: usize,
)
    requires
        fitting(ast, m),
        sound(ast, m, seen),
        machine::frame_ok(
            ast,
            m.environments.len(),
            FrameView::Sequence { source, next, environment },
        ),
        frame_safe(
            ast,
            table_of(m, seen),
            m.environments,
            m.program,
            FrameView::Sequence { source, next, environment },
        ),
        fits(machine::sequence(ast, m, source, next, environment).machine),
        m.control is Idle,
        machine::captures_ok(m.environments, m.functions),
        machine::own(source, environment) is Some ==> machine::frames_below(
            m.frames,
            environment as int,
        ),
    ensures
        sound(ast, machine::sequence(ast, m, source, next, environment).machine, seen),
{
    let table = table_of(m, seen);
    let names = names_of(m.environments, environment);
    let list = list_of(ast, m.program, source);
    assert(statements_of(ast, m, source) == list);
    lemma_list_below(ast, m.program, source);
    lemma_list_fits(ast, m.program, source);
    let rest = FrameView::Sequence { source, next: (next + 1) as usize, environment };
    if next < list.len() {
        let stmt = list[next as int];
        lemma_stmt_below(ast, stmt as int);
        assert(safe_stmt(ast, table, stmt, names));
        assert(safe_stmts(ast, table, list, (next + 1) as nat, declared_by(ast.stmts[stmt as int], names)));
        match ast.stmts[stmt as int] {
            StmtView::Var { name, initializer } => {
                lemma_evaluate_with(
                    ast,
                    m,
                    seen,
                    FrameView::Initializer { source, next, environment },
                    initializer,
                    environment,
                );
            },
            StmtView::Function { name, params, body } => {
                lemma_declare_sound(ast, m, seen, stmt, environment);
                let declared = machine::declare(ast, m, stmt, environment);
                lemma_safe_stmts_carries(
                    ast,
                    ast,
                    table,
                    table,
                    list,
                    (next + 1) as nat,
                    declared_by(ast.stmts[stmt as int], names),
                    names_of(declared.environments, environment),
                );
                lemma_pushed(ast, declared, seen, rest);
                lemma_go(ast, declared.pushed(rest), seen, ControlView::Complete);
            },
            _ => {
                lemma_pushed(ast, m, seen, rest);
                lemma_go(ast, m.pushed(rest), seen, ControlView::Execute { stmt, environment });
            },
        }
    } else {
        lemma_stopped(ast, m, seen);
        lemma_released_sound(ast, m, seen, source, environment);
        lemma_go(ast, machine::released(m, source, environment), seen, ControlView::Complete);
    }
}

/// A step after a statement is done keeps the machine sound.
pub proof fn lemma_proceed_sound(ast: AstView, m: Machine, seen: Set<usize>, frame: FrameView)
    requires
        fitting(ast, m),
        sound(ast, m, seen),
        machine::frame_ok(ast, m.environments.len(), frame),
        frame_safe(ast, table_of(m, seen), m.environments, m.program, frame),
        fits(machine::proceed(ast, m, frame).machine),
        m.control is Idle,
        machine::captures_ok(m.environments, m.functions),
        machine::owned_by(frame) matches Some(e) ==> machine::frames_below(m.frames, e as int),
    ensures
        sound(ast, machine::proceed(ast, m, frame).machine, seen),
{
    match frame {
        FrameView::Sequence { source, next, environment } => {
            lemma_sequence_sound(ast, m, seen, source, next, environment);
        },
        FrameView::WhileBody { stmt, environment } => {
            lemma_stmt_below(ast, stmt as int);
            match ast.stmts[stmt as int] {
                StmtView::While { condition, body } => {
                    lemma_evaluate_with(
                        ast,
                        m,
                        seen,
                        FrameView::WhileCondition { stmt, environment },
                        condition,
                        environment,
                    );
                },
                _ => {},
            }
        },
        _ => {},
    }
}

/// A step that hands a value to a frame keeps the machine sound.
pub proof fn lemma_resume_sound(
    ast: AstView,
    m: Machine,
    seen: Set<usize>,
    frame: FrameView,
    value: Value,
)
    requires
        fitting(ast, m),
        sound(ast, m, seen),
        machine::frame_ok(ast, m.environments.len(), frame),
        frame_safe(ast, table_of(m, seen), m.environments, m.program, frame),
        fits(machine::resume(ast, m, frame, value).machine),
    ensures
        sound(ast, machine::resume(ast, m, frame, value).machine, seen),
{
    let table = table_of(m, seen);
    match frame {
        FrameView::BinaryRight { expr, environment } => {
            lemma_expr_below(ast, expr as int);
            match ast.exprs[expr as int] {
                ExprView::Binary { left, operator, right } => {
                    lemma_evaluate_with(
                        ast,
                        m,
                        seen,
                        FrameView::BinaryApply { expr, left: value },
                        right,
                        environment,
                    );
                },
                _ => {},
            }
        },
        FrameView::Logical { expr, environment } => {
            lemma_expr_below(ast, expr as int);
            match ast.exprs[expr as int] {
                ExprView::Logical { left, operator, right } => {
                    lemma_go(ast, m, seen, ControlView::Evaluate { expr: right, environment });
                },
                _ => {},
            }
        },
        FrameView::Assign { expr, environment } => {
            match ast.exprs[expr as int] {
                ExprView::Assign { name, value: _ } => {
                    lemma_assign_sound(ast, m, seen, name, expr, environment, value);
                },
                _ => {},
            }
        },
        FrameView::Callee { expr, environment } => {
            lemma_expr_below(ast, expr as int);
            match ast.exprs[expr as int] {
                ExprView::Call { callee, paren, arguments } => {
                    if arguments.len() == 0 {
                        lemma_call_sound(ast, m, seen, paren, value, Seq::empty());
                    } else {
                        lemma_evaluate_with(
                            ast,
                            m,
                            seen,
                            FrameView::Arguments {
                                expr,
                                environment,
                                callee: value,
                                values: Seq::empty(),
                            },
                            arguments[0],
                            environment,
                        );
                    }
                },
                _ => {},
            }
        },
        FrameView::Arguments { expr, environment, callee, values } => {
            lemma_expr_below(ast, expr as int);
            match ast.exprs[expr as int] {
                ExprView::Call { callee: _, paren, arguments } => {
                    let more = values.push(value);
                    if more.len() < arguments.len() {
                        lemma_evaluate_with(
                            ast,
                            m,
                            seen,
                            FrameView::Arguments { expr, environment, callee, values: more },
                            arguments[more.len() as int],
                            environment,
                        );
                    } else {
                        lemma_call_sound(ast, m, seen, paren, callee, more);
                    }
                },
                _ => {},
            }
        },
        FrameView::Var { stmt, environment } => {
            match ast.stmts[stmt as int] {
                StmtView::Var { name, initializer } => {
                    lemma_define_grown(m.environments, environment, name.lexeme@, value);
                    lemma_wider(
                        ast,
                        m,
                        seen,
                        environment::define(m.environments, environment, name.lexeme@, value),
                    );
                },
                _ => {},
            }
        },
        FrameView::If { stmt, environment } => {
            lemma_stmt_below(ast, stmt as int);
            match ast.stmts[stmt as int] {
                StmtView::If { condition, then_branch, else_branch } => {
                    lemma_go(
                        ast,
                        m,
                        seen,
                        ControlView::Execute { stmt: then_branch, environment },
                    );
                    match else_branch {
                        Some(other) => {
                            lemma_go(
                                ast,
                                m,
                                seen,
                                ControlView::Execute { stmt: other, environment },
                            );
                        },
                        None => {},
                    }
                },
                _ => {},
            }
        },
        FrameView::WhileCondition { stmt, environment } => {
            lemma_stmt_below(ast, stmt as int);
            match ast.stmts[stmt as int] {
                StmtView::While { condition, body } => {
                    let again = FrameView::WhileBody { stmt, environment };
                    lemma_pushed(ast, m, seen, again);
                    lemma_go(
                        ast,
                        m.pushed(again),
                        seen,
                        ControlView::Execute { stmt: body, environment },
                    );
                },
                _ => {},
            }
        },
        FrameView::Initializer { source, next, environment } => {
            lemma_initialize_sound(ast, m, seen, source, next, environment, value);
        },
        _ => {},
    }
}

/// Every step keeps the machine sound.
pub proof fn lemma_step_sound(ast: AstView, m: Machine, seen: Set<usize>, event: EventView)
    requires
        valid(ast, m),
        sound(ast, m, seen),
        fits(machine::step(ast, m, event).machine),
    ensures
        sound(ast, machine::step(ast, m, event).machine, seen),
{
    let rest = m.with_control(ControlView::Idle);
    lemma_rest(ast, m, seen);
    match m.control {
        ControlView::Idle => {},
        ControlView::Evaluate { expr, environment } => {
            lemma_evaluate_sound(ast, rest, seen, expr, environment);
        },
        ControlView::Execute { stmt, environment } => {
            lemma_execute_sound(ast, rest, seen, stmt, environment);
        },
        ControlView::Deliver { value } => {
            if rest.frames.len() > 0 {
                lemma_popped(ast, rest, seen);
                lemma_resume_sound(ast, rest.popped(), seen, rest.frames.last(), value);
            }
        },
        ControlView::Complete => {
            if rest.frames.len() > 0 {
                lemma_popped(ast, rest, seen);
                lemma_popped_owner(rest);
                lemma_proceed_sound(ast, rest.popped(), seen, rest.frames.last());
            }
        },
        ControlView::Unwind { value, stmt } => {
            if rest.frames.len() > 0 {
                lemma_popped(ast, rest, seen);
                lemma_popped_owner(rest);
                let below = rest.popped();
                match rest.frames.last() {
                    FrameView::Sequence { source, next, environment } => {
                        lemma_released_sound(ast, below, seen, source, environment);
                        lemma_go(
                            ast,
                            machine::released(below, source, environment),
                            seen,
                            ControlView::Unwind { value, stmt },
                        );
                    },
                    FrameView::Initializer { source, next, environment } => {
                        lemma_released_sound(ast, below, seen, source, environment);
                        lemma_go(
                            ast,
                            machine::released(below, source, environment),
                            seen,
                            ControlView::Unwind { value, stmt },
                        );
                    },
                    _ => {},
                }
            }
        },
        ControlView::AwaitNumber => {},
        ControlView::AwaitText => {},
    }
}

/// A sound machine that is set to run a program that is safe outside
/// every local environment is sound.
pub proof fn lemma_loaded_sound(ast: AstView, m: Machine, seen: Set<usize>, program: Seq<usize>)
    requires
        sound(ast, m, seen),
        safe_stmts(ast, table_of(m, seen), program, 0, Seq::empty()),
    ensures
        sound(ast, machine::loaded(m, program), seen),
{
    let next = machine::loaded(m, program);
    assert(names_of(next.environments, 0) =~= Seq::empty());
    assert forall|i: int| 0 <= i < next.frames.len() implies frame_safe(
        ast,
        table_of(m, seen),
        next.environments,
        next.program,
        #[trigger] next.frames[i],
    ) by {
        assert(next.frames[i] == FrameView::Sequence {
            source: Source::Program,
            next: 0,
            environment: 0,
        });
    }
}

} // verus!
