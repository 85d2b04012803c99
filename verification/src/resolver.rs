//! The resolver: a walk over the statements that finds, for each use of a
//! local variable, how many scopes lie between the use and the declaration.

use std::collections::HashMap;
use vstd::prelude::*;

use crate::ast::Ast;
use crate::bindings::Bindings;
use crate::error;
use crate::error_token;
use crate::expr::{all_below, Expr};
use crate::resolution;
use crate::resolution::{ceiling, depth_from, depth_of, farther, Resolving};
use crate::scanner::texts_view;
use crate::stmt::Stmt;
use crate::text::text;
use crate::token::Token;

verus! {

/// The values of a stack of scopes.
pub open spec fn scopes_view(scopes: Seq<Bindings<bool>>) -> Seq<Map<Seq<char>, bool>> {
    scopes.map_values(|b: Bindings<bool>| b@)
}

/// A resolver over the nodes of a program.
pub struct Resolver<'a> {
    /// The nodes of the program.
    pub ast: &'a Ast,
    pub scopes: Vec<Bindings<bool>>,
    /// The distances found, by expression.
    pub locals: HashMap<usize, usize>,
    /// The uses of variables resolved; an account kept beside the
    /// resolution.
    pub seen: Ghost<Set<usize>>,
    /// A use came up that was resolved before; part of the account.
    pub twice: Ghost<bool>,
    /// The diagnostics given.
    pub diagnostics: Vec<String>,
}

impl<'a> View for Resolver<'a> {
    type V = Resolving;

    open spec fn view(&self) -> Resolving {
        Resolving {
            scopes: scopes_view(self.scopes@),
            locals: self.locals@,
            seen: self.seen@,
            twice: self.twice@,
            diagnostics: texts_view(self.diagnostics@),
        }
    }
}

impl<'a> Resolver<'a> {
    /// The nodes of the program are well formed.
    pub open spec fn wf(&self) -> bool {
        self.ast.wf()
    }

    /// `self` is a state of the resolver `before`: the same program, as
    /// many scopes open.
    pub open spec fn continues(&self, before: &Resolver) -> bool {
        &&& self.ast == before.ast
        &&& self.scopes.len() == before.scopes.len()
    }

    /// A resolver for the nodes of `ast`, outside every scope, that adds to
    /// the distances in `locals`. Its account starts with the uses that
    /// have a distance.
    pub fn new(ast: &'a Ast, locals: HashMap<usize, usize>) -> (r: Self)
        requires
            ast.wf(),
        ensures
            r.wf(),
            r.ast == ast,
            r@ == (Resolving {
                scopes: Seq::empty(),
                locals: locals@,
                seen: locals@.dom(),
                twice: false,
                diagnostics: Seq::empty(),
            }),
    {
        let ghost seen = locals@.dom();
        let r = Resolver {
            ast,
            scopes: Vec::new(),
            locals,
            seen: Ghost(seen),
            twice: Ghost(false),
            diagnostics: Vec::new(),
        };
        assert(r@.scopes =~= Seq::empty());
        assert(r@.diagnostics =~= Seq::empty());
        r
    }

    /// Resolves one statement.
    fn resolve(&mut self, statement: usize)
        requires
            old(self).wf(),
            statement < old(self).ast@.stmts.len(),
        ensures
            final(self).continues(old(self)),
            final(self)@ == resolution::resolve_stmt(old(self).ast@, statement, old(self)@),
        decreases 3 * (statement + 1), 0nat,
    {
        let ast = self.ast;
        assert(ast@.stmts[statement as int] == ast.stmts@[statement as int]@);
        proof {
            crate::ast::lemma_stmt_below(ast@, statement as int);
        }
        match &ast.stmts[statement] {
            Stmt::Expression { .. } => self.visit_expression_stmt(statement),
            Stmt::Print { .. } => self.visit_print_stmt(statement),
            Stmt::Var { .. } => self.visit_var_stmt(statement),
            Stmt::Block { .. } => self.visit_block_stmt(statement),
            Stmt::If { .. } => self.visit_if_stmt(statement),
            Stmt::While { .. } => self.visit_while_stmt(statement),
            Stmt::Function { .. } => self.visit_function_stmt(statement),
            Stmt::Return { .. } => self.visit_return_stmt(statement),
        }
    }

    /// Resolves the statements in order. The result is `Ok` if the
    /// resolver has given no diagnostic, in this call or before it.
    pub fn resolve_vec(&mut self, statements: &Vec<usize>) -> (r: Result<(), ()>)
        requires
            old(self).wf(),
            all_below(statements@, old(self).ast@.stmts.len() as int),
        ensures
            final(self).continues(old(self)),
            final(self)@ == resolution::resolve_stmts(
                old(self).ast@,
                statements@,
                0,
                old(self)@,
            ),
            r is Ok <==> final(self)@.diagnostics.len() == 0,
        decreases 3 * ceiling(statements@), 1nat,
    {
        let mut i: usize = 0;
        while i < statements.len()
            invariant
                self.wf(),
                self.continues(old(self)),
                i <= statements.len(),
                all_below(statements@, self.ast@.stmts.len() as int),
                resolution::resolve_stmts(self.ast@, statements@, i as nat, self@)
                    == resolution::resolve_stmts(old(self).ast@, statements@, 0, old(self)@),
            decreases statements.len() - i,
        {
            proof {
                resolution::lemma_ceiling_above(statements@, i as int);
            }
            self.resolve(statements[i]);
            i = i + 1;
        }
        if self.diagnostics.len() == 0 {
            Ok(())
        } else {
            Err(())
        }
    }

    /// Resolves one expression.
    fn resolve_expr(&mut self, expr: usize)
        requires
            old(self).wf(),
            expr < old(self).ast@.exprs.len(),
        ensures
            final(self).continues(old(self)),
            final(self)@ == resolution::resolve_expr(old(self).ast@, expr, old(self)@),
        decreases 3 * (expr + 1), 0nat,
    {
        let ast = self.ast;
        assert(ast@.exprs[expr as int] == ast.exprs@[expr as int]@);
        proof {
            crate::ast::lemma_expr_below(ast@, expr as int);
        }
        match &ast.exprs[expr] {
            Expr::Binary { .. } => self.visit_binary_expr(expr),
            Expr::Grouping { .. } => self.visit_grouping_expr(expr),
            Expr::Literal { .. } => self.visit_literal_expr(expr),
            Expr::Unary { .. } => self.visit_unary_expr(expr),
            Expr::Variable { .. } => self.visit_variable_expr(expr),
            Expr::Assign { .. } => self.visit_assign_expr(expr),
            Expr::Logical { .. } => self.visit_logical_expr(expr),
            Expr::Call { .. } => self.visit_call_expr(expr),
        }
    }

    fn report(&mut self, diagnostic: String)
        ensures
            final(self).ast == old(self).ast,
            final(self).scopes == old(self).scopes,
            final(self)@ == resolution::reported(old(self)@, diagnostic@),
    {
        self.diagnostics.push(diagnostic);
        assert(texts_view(self.diagnostics@) =~= texts_view(old(self).diagnostics@).push(
            diagnostic@,
        ));
    }

    fn begin_scope(&mut self)
        ensures
            final(self).ast == old(self).ast,
            final(self).scopes.len() == old(self).scopes.len() + 1,
            final(self)@ == resolution::begin_scope(old(self)@),
    {
        self.scopes.push(Bindings::new());
        assert(scopes_view(self.scopes@) =~= scopes_view(old(self).scopes@).push(Map::empty()));
    }

    fn end_scope(&mut self)
        requires
            old(self).scopes.len() > 0,
        ensures
            final(self).ast == old(self).ast,
            final(self).scopes.len() == old(self).scopes.len() - 1,
            final(self)@ == resolution::end_scope(old(self)@),
    {
        self.scopes.pop();
        assert(scopes_view(self.scopes@) =~= scopes_view(old(self).scopes@).drop_last());
    }

    /// Binds `name` in the innermost scope, if there is one.
    fn bind(&mut self, name: String, ready: bool)
        ensures
            final(self).ast == old(self).ast,
            final(self).scopes.len() == old(self).scopes.len(),
            final(self)@ == (Resolving {
                scopes: resolution::bind(old(self)@.scopes, name@, ready),
                ..old(self)@
            }),
    {
        match self.scopes.pop() {
            Some(scope) => {
                let mut scope = scope;
                scope.insert(name, ready);
                self.scopes.push(scope);
                assert(scopes_view(self.scopes@) =~= resolution::bind(
                    old(self)@.scopes,
                    name@,
                    ready,
                ));
            },
            None => {
                assert(scopes_view(self.scopes@) =~= old(self)@.scopes);
            },
        }
    }

    fn declare(&mut self, name: &Token)
        ensures
            final(self).continues(old(self)),
            final(self)@ == resolution::declare(old(self)@, *name),
    {
        if self.scopes.len() == 0 {
            assert(resolution::bind(self@.scopes, name.lexeme@, false) =~= self@.scopes);
            return ;
        }
        let last_scope_index = self.scopes.len() - 1;
        assert(scopes_view(self.scopes@)[last_scope_index as int]
            == self.scopes@[last_scope_index as int]@);
        if self.scopes[last_scope_index].contains_key(&name.lexeme) {
            let diagnostic = error_token(
                name,
                text("Already a variable with this name in this scope"),
            );
            self.report(diagnostic);
        } else {
            self.bind(name.lexeme.clone(), false);
        }
    }

    fn define(&mut self, name: String)
        ensures
            final(self).continues(old(self)),
            final(self)@ == resolution::define(old(self)@, name@),
    {
        self.bind(name, true);
    }

    /// The distance from the innermost scope to the nearest scope that
    /// declares `name`.
    fn depth(&self, name: &String) -> (r: Option<usize>)
        ensures
            match r {
                Some(d) => depth_of(self@.scopes, name@) == Some(d as nat),
                None => depth_of(self@.scopes, name@) is None,
            },
    {
        let n = self.scopes.len();
        let mut i: usize = n;
        while i > 0
            invariant
                i <= n,
                n == self.scopes.len(),
                depth_of(self@.scopes, name@) == farther(
                    depth_from(self@.scopes, i - 1, name@),
                    (n - i) as nat,
                ),
            decreases i,
        {
            i = i - 1;
            assert(scopes_view(self.scopes@)[i as int] == self.scopes@[i as int]@);
            if self.scopes[i].contains_key(name) {
                return Some(n - 1 - i);
            }
        }
        None
    }

    /// Records the distance to the scope of `name` for the use `expr`.
    fn resolve_local(&mut self, expr: usize, name: &Token)
        ensures
            final(self).continues(old(self)),
            final(self)@ == resolution::resolve_local(old(self)@, expr, *name),
    {
        broadcast use vstd::std_specs::hash::group_hash_axioms;

        let ghost again = self.twice@ || self.seen@.contains(expr);
        let ghost noted = self.seen@.insert(expr);
        self.twice = Ghost(again);
        self.seen = Ghost(noted);
        match self.depth(&name.lexeme) {
            Some(d) => {
                self.locals.insert(expr, d);
            },
            None => {},
        }
    }

    /// Resolves a function: its parameters and its body share one scope.
    fn resolve_function(&mut self, statement: usize)
        requires
            old(self).wf(),
            statement < old(self).ast@.stmts.len(),
            old(self).ast.stmts@[statement as int] is Function,
        ensures
            final(self).continues(old(self)),
            final(self)@ == ({
                let params = old(self).ast@.stmts[statement as int]->Function_params;
                let body = old(self).ast@.stmts[statement as int]->Function_body;
                resolution::end_scope(
                    resolution::resolve_stmts(
                        old(self).ast@,
                        body,
                        0,
                        resolution::declare_params(
                            params,
                            0,
                            resolution::begin_scope(old(self)@),
                        ),
                    ),
                )
            }),
        decreases 3 * statement + 1, 0nat,
    {
        let ast = self.ast;
        assert(ast@.stmts[statement as int] == ast.stmts@[statement as int]@);
        proof {
            crate::ast::lemma_stmt_below(ast@, statement as int);
        }
        match &ast.stmts[statement] {
            Stmt::Function { name, params, body } => {
                self.begin_scope();
                let ghost opened = self@;
                let mut i: usize = 0;
                while i < params.len()
                    invariant
                        self.wf(),
                        self.ast == old(self).ast,
                        self.scopes.len() == old(self).scopes.len() + 1,
                        i <= params.len(),
                        resolution::declare_params(params@, i as nat, self@)
                            == resolution::declare_params(params@, 0, opened),
                    decreases params.len() - i,
                {
                    self.declare(&params[i]);
                    self.define(params[i].lexeme.clone());
                    i = i + 1;
                }
                proof {
                    resolution::lemma_ceiling_below(body@, statement as int);
                }
                let _ = self.resolve_vec(body);
                self.end_scope();
            },
            _ => {},
        }
    }

    fn visit_binary_expr(&mut self, expr: usize)
        requires
            old(self).wf(),
            expr < old(self).ast@.exprs.len(),
            old(self).ast.exprs@[expr as int] is Binary,
        ensures
            final(self).continues(old(self)),
            final(self)@ == resolution::resolve_expr(old(self).ast@, expr, old(self)@),
        decreases 3 * expr + 2, 0nat,
    {
        let ast = self.ast;
        assert(ast@.exprs[expr as int] == ast.exprs@[expr as int]@);
        proof {
            crate::ast::lemma_expr_below(ast@, expr as int);
        }
        match &ast.exprs[expr] {
            Expr::Binary { left, operator: _, right } => {
                self.resolve_expr(*left);
                self.resolve_expr(*right);
            },
            _ => {},
        }
    }

    fn visit_grouping_expr(&mut self, expr: usize)
        requires
            old(self).wf(),
            expr < old(self).ast@.exprs.len(),
            old(self).ast.exprs@[expr as int] is Grouping,
        ensures
            final(self).continues(old(self)),
            final(self)@ == resolution::resolve_expr(old(self).ast@, expr, old(self)@),
        decreases 3 * expr + 2, 0nat,
    {
        let ast = self.ast;
        assert(ast@.exprs[expr as int] == ast.exprs@[expr as int]@);
        proof {
            crate::ast::lemma_expr_below(ast@, expr as int);
        }
        match &ast.exprs[expr] {
            Expr::Grouping { expression } => {
                self.resolve_expr(*expression);
            },
            _ => {},
        }
    }

    fn visit_literal_expr(&mut self, expr: usize)
        requires
            old(self).wf(),
            expr < old(self).ast@.exprs.len(),
            old(self).ast.exprs@[expr as int] is Literal,
        ensures
            final(self).continues(old(self)),
            final(self)@ == resolution::resolve_expr(old(self).ast@, expr, old(self)@),
    {
        assert(self.ast@.exprs[expr as int] == self.ast.exprs@[expr as int]@);
    }

    fn visit_unary_expr(&mut self, expr: usize)
        requires
            old(self).wf(),
            expr < old(self).ast@.exprs.len(),
            old(self).ast.exprs@[expr as int] is Unary,
        ensures
            final(self).continues(old(self)),
            final(self)@ == resolution::resolve_expr(old(self).ast@, expr, old(self)@),
        decreases 3 * expr + 2, 0nat,
    {
        let ast = self.ast;
        assert(ast@.exprs[expr as int] == ast.exprs@[expr as int]@);
        proof {
            crate::ast::lemma_expr_below(ast@, expr as int);
        }
        match &ast.exprs[expr] {
            Expr::Unary { operator: _, right } => {
                self.resolve_expr(*right);
            },
            _ => {},
        }
    }

    /// Resolves a read of a variable. A local variable cannot be read in
    /// its own initializer.
    fn visit_variable_expr(&mut self, expr: usize)
        requires
            old(self).wf(),
            expr < old(self).ast@.exprs.len(),
            old(self).ast.exprs@[expr as int] is Variable,
        ensures
            final(self).continues(old(self)),
            final(self)@ == resolution::resolve_expr(old(self).ast@, expr, old(self)@),
    {
        let ast = self.ast;
        assert(ast@.exprs[expr as int] == ast.exprs@[expr as int]@);
        proof {
            crate::ast::lemma_expr_below(ast@, expr as int);
        }
        match &ast.exprs[expr] {
            Expr::Variable { name } => {
                if self.scopes.len() > 0 {
                    let last_scope_index = self.scopes.len() - 1;
                    assert(scopes_view(self.scopes@)[last_scope_index as int]
                        == self.scopes@[last_scope_index as int]@);
                    match self.scopes[last_scope_index].get(&name.lexeme) {
                        Some(is_defined) => {
                            if !*is_defined {
                                let diagnostic = error(
                                    name.line,
                                    &text("Can't read local variable in its own initializer."),
                                );
                                self.report(diagnostic);
                                return ;
                            }
                        },
                        None => {},
                    }
                }
                self.resolve_local(expr, name);
            },
            _ => {},
        }
    }

    fn visit_assign_expr(&mut self, expr: usize)
        requires
            old(self).wf(),
            expr < old(self).ast@.exprs.len(),
            old(self).ast.exprs@[expr as int] is Assign,
        ensures
            final(self).continues(old(self)),
            final(self)@ == resolution::resolve_expr(old(self).ast@, expr, old(self)@),
        decreases 3 * expr + 2, 0nat,
    {
        let ast = self.ast;
        assert(ast@.exprs[expr as int] == ast.exprs@[expr as int]@);
        proof {
            crate::ast::lemma_expr_below(ast@, expr as int);
        }
        match &ast.exprs[expr] {
            Expr::Assign { name, value } => {
                self.resolve_expr(*value);
                self.resolve_local(expr, name);
            },
            _ => {},
        }
    }

    fn visit_logical_expr(&mut self, expr: usize)
        requires
            old(self).wf(),
            expr < old(self).ast@.exprs.len(),
            old(self).ast.exprs@[expr as int] is Logical,
        ensures
            final(self).continues(old(self)),
            final(self)@ == resolution::resolve_expr(old(self).ast@, expr, old(self)@),
        decreases 3 * expr + 2, 0nat,
    {
        let ast = self.ast;
        assert(ast@.exprs[expr as int] == ast.exprs@[expr as int]@);
        proof {
            crate::ast::lemma_expr_below(ast@, expr as int);
        }
        match &ast.exprs[expr] {
            Expr::Logical { left, operator: _, right } => {
                self.resolve_expr(*left);
                self.resolve_expr(*right);
            },
            _ => {},
        }
    }

    fn visit_call_expr(&mut self, expr: usize)
        requires
            old(self).wf(),
            expr < old(self).ast@.exprs.len(),
            old(self).ast.exprs@[expr as int] is Call,
        ensures
            final(self).continues(old(self)),
            final(self)@ == resolution::resolve_expr(old(self).ast@, expr, old(self)@),
        decreases 3 * expr + 2, 0nat,
    {
        let ast = self.ast;
        assert(ast@.exprs[expr as int] == ast.exprs@[expr as int]@);
        proof {
            crate::ast::lemma_expr_below(ast@, expr as int);
        }
        match &ast.exprs[expr] {
            Expr::Call { callee, paren: _, arguments } => {
                self.resolve_expr(*callee);
                let ghost called = self@;
                let mut i: usize = 0;
                while i < arguments.len()
                    invariant
                        self.wf(),
                        self.continues(old(self)),
                        i <= arguments.len(),
                        all_below(arguments@, expr as int),
                        expr < self.ast@.exprs.len(),
                        resolution::resolve_exprs(self.ast@, arguments@, i as nat, self@)
                            == resolution::resolve_exprs(self.ast@, arguments@, 0, called),
                    decreases arguments.len() - i,
                {
                    self.resolve_expr(arguments[i]);
                    i = i + 1;
                }
            },
            _ => {},
        }
    }

    fn visit_expression_stmt(&mut self, statement: usize)
        requires
            old(self).wf(),
            statement < old(self).ast@.stmts.len(),
            old(self).ast.stmts@[statement as int] is Expression,
        ensures
            final(self).continues(old(self)),
            final(self)@ == resolution::resolve_stmt(old(self).ast@, statement, old(self)@),
    {
        let ast = self.ast;
        assert(ast@.stmts[statement as int] == ast.stmts@[statement as int]@);
        proof {
            crate::ast::lemma_stmt_below(ast@, statement as int);
        }
        match &ast.stmts[statement] {
            Stmt::Expression { expression } => {
                self.resolve_expr(*expression);
            },
            _ => {},
        }
    }

    fn visit_print_stmt(&mut self, statement: usize)
        requires
            old(self).wf(),
            statement < old(self).ast@.stmts.len(),
            old(self).ast.stmts@[statement as int] is Print,
        ensures
            final(self).continues(old(self)),
            final(self)@ == resolution::resolve_stmt(old(self).ast@, statement, old(self)@),
    {
        let ast = self.ast;
        assert(ast@.stmts[statement as int] == ast.stmts@[statement as int]@);
        proof {
            crate::ast::lemma_stmt_below(ast@, statement as int);
        }
        match &ast.stmts[statement] {
            Stmt::Print { expression } => {
                self.resolve_expr(*expression);
            },
            _ => {},
        }
    }

    fn visit_var_stmt(&mut self, statement: usize)
        requires
            old(self).wf(),
            statement < old(self).ast@.stmts.len(),
            old(self).ast.stmts@[statement as int] is Var,
        ensures
            final(self).continues(old(self)),
            final(self)@ == resolution::resolve_stmt(old(self).ast@, statement, old(self)@),
    {
        let ast = self.ast;
        assert(ast@.stmts[statement as int] == ast.stmts@[statement as int]@);
        proof {
            crate::ast::lemma_stmt_below(ast@, statement as int);
        }
        match &ast.stmts[statement] {
            Stmt::Var { name, initializer } => {
                self.declare(name);
                self.resolve_expr(*initializer);
                self.define(name.lexeme.clone());
            },
            _ => {},
        }
    }

    fn visit_block_stmt(&mut self, statement: usize)
        requires
            old(self).wf(),
            statement < old(self).ast@.stmts.len(),
            old(self).ast.stmts@[statement as int] is Block,
        ensures
            final(self).continues(old(self)),
            final(self)@ == resolution::resolve_stmt(old(self).ast@, statement, old(self)@),
        decreases 3 * statement + 2, 0nat,
    {
        let ast = self.ast;
        assert(ast@.stmts[statement as int] == ast.stmts@[statement as int]@);
        proof {
            crate::ast::lemma_stmt_below(ast@, statement as int);
        }
        match &ast.stmts[statement] {
            Stmt::Block { statements } => {
                proof {
                    resolution::lemma_ceiling_below(statements@, statement as int);
                }
                self.begin_scope();
                let _ = self.resolve_vec(statements);
                self.end_scope();
            },
            _ => {},
        }
    }

    fn visit_if_stmt(&mut self, statement: usize)
        requires
            old(self).wf(),
            statement < old(self).ast@.stmts.len(),
            old(self).ast.stmts@[statement as int] is If,
        ensures
            final(self).continues(old(self)),
            final(self)@ == resolution::resolve_stmt(old(self).ast@, statement, old(self)@),
        decreases 3 * statement + 2, 0nat,
    {
        let ast = self.ast;
        assert(ast@.stmts[statement as int] == ast.stmts@[statement as int]@);
        proof {
            crate::ast::lemma_stmt_below(ast@, statement as int);
        }
        match &ast.stmts[statement] {
            Stmt::If { condition, then_branch, else_branch } => {
                self.resolve_expr(*condition);
                self.resolve(*then_branch);
                match else_branch {
                    Some(else_stmt) => self.resolve(*else_stmt),
                    None => (),
                };
            },
            _ => {},
        }
    }

    fn visit_while_stmt(&mut self, statement: usize)
        requires
            old(self).wf(),
            statement < old(self).ast@.stmts.len(),
            old(self).ast.stmts@[statement as int] is While,
        ensures
            final(self).continues(old(self)),
            final(self)@ == resolution::resolve_stmt(old(self).ast@, statement, old(self)@),
        decreases 3 * statement + 2, 0nat,
    {
        let ast = self.ast;
        assert(ast@.stmts[statement as int] == ast.stmts@[statement as int]@);
        proof {
            crate::ast::lemma_stmt_below(ast@, statement as int);
        }
        match &ast.stmts[statement] {
            Stmt::While { condition, body } => {
                self.resolve_expr(*condition);
                self.resolve(*body);
            },
            _ => {},
        }
    }

    /// Resolves a function declaration. The name is defined before the
    /// body is resolved, so the function may call itself.
    fn visit_function_stmt(&mut self, statement: usize)
        requires
            old(self).wf(),
            statement < old(self).ast@.stmts.len(),
            old(self).ast.stmts@[statement as int] is Function,
        ensures
            final(self).continues(old(self)),
            final(self)@ == resolution::resolve_stmt(old(self).ast@, statement, old(self)@),
        decreases 3 * statement + 2, 0nat,
    {
        let ast = self.ast;
        assert(ast@.stmts[statement as int] == ast.stmts@[statement as int]@);
        proof {
            crate::ast::lemma_stmt_below(ast@, statement as int);
        }
        match &ast.stmts[statement] {
            Stmt::Function { name, params: _, body: _ } => {
                self.declare(name);
                self.define(name.lexeme.clone());
                self.resolve_function(statement);
            },
            _ => {},
        }
    }

    fn visit_return_stmt(&mut self, statement: usize)
        requires
            old(self).wf(),
            statement < old(self).ast@.stmts.len(),
            old(self).ast.stmts@[statement as int] is Return,
        ensures
            final(self).continues(old(self)),
            final(self)@ == resolution::resolve_stmt(old(self).ast@, statement, old(self)@),
    {
        let ast = self.ast;
        assert(ast@.stmts[statement as int] == ast.stmts@[statement as int]@);
        proof {
            crate::ast::lemma_stmt_below(ast@, statement as int);
        }
        match &ast.stmts[statement] {
            Stmt::Return { keyword: _, value } => {
                self.resolve_expr(*value);
            },
            _ => {},
        }
    }
}

} // verus!
