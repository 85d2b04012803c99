//! The parser: tokens to statements, by recursive descent.
//!
//! Each method reads one production of [`crate::grammar`] and is verified
//! to do what that production says.

use vstd::prelude::*;

use crate::ast::{apart, apart_list, floor_of, lemma_fold_bounds, lemma_lens, top_of, Ast, AstView};
use crate::error_token;
use crate::expr::{all_below, expr_below, Expr, MAX_ARITY};
use crate::grammar;
use crate::grammar::{done, fail, kind_at, Parsed, Parsing};
use crate::scanner::texts_view;
use crate::stmt::{branches_plain, plain, stmt_below, Stmt};
use crate::text::text;
use crate::token::{Literal, Token, TokenType};

verus! {

/// What a method returned, as the grammar writes it.
pub open spec fn outcome<T>(state: Parsing, r: Result<T, ()>) -> Parsed<T> {
    match r {
        Ok(v) => done(state, v),
        Err(_) => fail(state),
    }
}

/// What a method returned, as the grammar writes it, for a list.
pub open spec fn outcome_list<T>(state: Parsing, r: Result<Vec<T>, ()>) -> Parsed<Seq<T>> {
    match r {
        Ok(v) => done(state, v@),
        Err(_) => fail(state),
    }
}

/// The expression `e` and its parts were added after `before`.
pub open spec fn fresh_expr(before: AstView, after: AstView, e: usize) -> bool {
    before.exprs.len() <= after.lows[e as int]
}

/// The expressions in the statement `s` were added after `before`.
pub open spec fn fresh_stmt(before: AstView, after: AstView, s: usize) -> bool {
    before.exprs.len() <= after.ranges[s as int].0 && after.ranges[s as int].1
        <= after.exprs.len()
}

/// The expressions in the statements `list` were added after `before`,
/// and no two of the statements have one in common.
pub open spec fn fresh_list(before: AstView, after: AstView, list: Seq<usize>) -> bool {
    &&& apart_list(after.ranges, list)
    &&& forall|k: int| 0 <= k < list.len() ==> fresh_stmt(before, after, #[trigger] list[k])
}

/// Each of the expressions `list` lies, with its parts, behind the one
/// before it, and the first at or behind `base`.
pub open spec fn lined(lows: Seq<usize>, base: int, list: Seq<usize>) -> bool {
    forall|k: int|
        0 <= k < list.len() ==> (if k == 0 {
            base
        } else {
            list[k - 1] + 1
        }) <= lows[#[trigger] list[k] as int]
}

/// A list of statements whose expressions were added after `base` lies
/// as a whole behind `base`.
pub proof fn lemma_list_fresh(base: int, ast: AstView, list: Seq<usize>)
    requires
        0 <= base <= usize::MAX,
        forall|k: int|
            0 <= k < list.len() ==> base <= ast.ranges[#[trigger] list[k] as int].0
                && ast.ranges[list[k] as int].1 <= ast.exprs.len(),
    ensures
        base <= floor_of(ast.ranges, list, 0),
        top_of(ast.ranges, list, 0) <= ast.exprs.len(),
{
    lemma_fold_bounds(ast.ranges, list, 0, base, ast.exprs.len() as int);
}

/// The clauses and the body of a `for` were read one after the other,
/// all behind `base`.
pub open spec fn for_ordered(
    ast: AstView,
    base: int,
    initializer: Option<usize>,
    test: Option<usize>,
    increment: Option<usize>,
    body: usize,
) -> bool {
    let inner = ast.ranges[body as int];
    &&& base <= inner.0
    &&& initializer matches Some(i) ==> base <= ast.ranges[i as int].0 && ast.ranges[i as int].1
        <= inner.0
    &&& test matches Some(c) ==> {
        &&& base <= ast.lows[c as int]
        &&& c < inner.0
        &&& initializer matches Some(i) ==> ast.ranges[i as int].1 <= ast.lows[c as int]
    }
    &&& increment matches Some(e) ==> {
        &&& base <= ast.lows[e as int]
        &&& e < inner.0
        &&& initializer matches Some(i) ==> ast.ranges[i as int].1 <= ast.lows[e as int]
        &&& test matches Some(c) ==> c < ast.lows[e as int]
    }
}

/// A parser over a sequence of tokens.
pub struct Parser<'a> {
    pub tokens: &'a Vec<Token>,
    pub current: usize,
    pub had_error: bool,
    /// The nodes made so far.
    pub ast: Ast,
    /// The diagnostics given so far.
    pub diagnostics: Vec<String>,
}

impl<'a> View for Parser<'a> {
    type V = Parsing;

    open spec fn view(&self) -> Parsing {
        Parsing {
            current: self.current as nat,
            ast: self.ast@,
            diagnostics: texts_view(self.diagnostics@),
            had_error: self.had_error,
        }
    }
}

/// The tokens are a scanner's: not empty, with the end marker last.
pub open spec fn ended(tokens: Seq<Token>) -> bool {
    tokens.len() > 0 && tokens[tokens.len() - 1].kind == TokenType::EOF
}

impl<'a> Parser<'a> {
    /// The tokens end with the end marker, the position lies among them,
    /// and every node stands behind its parts.
    pub open spec fn wf(&self) -> bool {
        &&& ended(self.tokens@)
        &&& self.current < self.tokens.len()
        &&& self.ast.wf()
    }

    /// `self` is a state that the parser `before` can come to: the same
    /// tokens, no earlier position, the same nodes and maybe more.
    pub open spec fn continues(&self, before: &Parser) -> bool {
        &&& self.tokens == before.tokens
        &&& self.current >= before.current
        &&& self.ast@.extends(before.ast@)
    }

    /// A parser at the first of `tokens` that adds its nodes to `ast`.
    pub fn new(tokens: &'a Vec<Token>, ast: Ast) -> (p: Self)
        requires
            ended(tokens@),
            ast.wf(),
        ensures
            p.wf(),
            p.tokens == tokens,
            p.ast == ast,
            p@ == (Parsing {
                current: 0,
                ast: ast@,
                diagnostics: Seq::empty(),
                had_error: false,
            }),
    {
        let p = Parser { tokens, current: 0, had_error: false, ast, diagnostics: Vec::new() };
        assert(p@.diagnostics =~= Seq::empty());
        p
    }

    fn peek_kind(&self) -> (kind: TokenType)
        requires
            self.wf(),
        ensures
            kind == kind_at(self.tokens@, self@),
    {
        self.tokens[self.current].kind
    }

    fn is_at_end(&self) -> (r: bool)
        requires
            self.wf(),
        ensures
            r == (kind_at(self.tokens@, self@) == TokenType::EOF),
    {
        self.peek_kind() == TokenType::EOF
    }

    fn check(&self, kind: TokenType) -> (r: bool)
        requires
            self.wf(),
        ensures
            r == (kind != TokenType::EOF && kind_at(self.tokens@, self@) == kind),
    {
        if self.is_at_end() {
            return false;
        }
        self.peek_kind() == kind
    }

    fn peek(&self) -> (token: Token)
        requires
            self.wf(),
        ensures
            token == self.tokens@[self.current as int],
    {
        self.tokens[self.current].clone()
    }

    fn previous(&self) -> (token: Token)
        requires
            self.wf(),
            self.current > 0,
        ensures
            token == self.tokens@[self.current - 1],
    {
        self.tokens[self.current - 1].clone()
    }

    fn advance(&mut self)
        requires
            old(self).wf(),
        ensures
            final(self).wf(),
            final(self).continues(old(self)),
            final(self)@ == grammar::advanced(old(self).tokens@, old(self)@),
    {
        if !self.is_at_end() {
            self.current += 1;
        }
    }

    /// Steps over the next token if it is of kind `kind`.
    fn match_token(&mut self, kind: TokenType) -> (r: bool)
        requires
            old(self).wf(),
        ensures
            final(self).wf(),
            final(self).continues(old(self)),
            r == (kind != TokenType::EOF && kind_at(old(self).tokens@, old(self)@) == kind),
            final(self)@ == if r {
                grammar::advanced(old(self).tokens@, old(self)@)
            } else {
                old(self)@
            },
            r ==> final(self).current > old(self).current,
    {
        if self.check(kind) {
            self.advance();
            return true;
        }
        false
    }

    /// Gives a diagnostic at `token`.
    fn error_at(&mut self, token: &Token, message: String)
        requires
            old(self).wf(),
        ensures
            final(self).wf(),
            final(self).continues(old(self)),
            final(self).current == old(self).current,
            final(self)@ == grammar::reported_at(old(self)@, *token, message@),
    {
        let diagnostic = error_token(token, message);
        self.diagnostics.push(diagnostic);
        self.had_error = true;
        assert(texts_view(self.diagnostics@) =~= texts_view(old(self).diagnostics@).push(
            diagnostic@,
        ));
    }

    /// Gives a diagnostic at the next token.
    fn error_here(&mut self, message: String)
        requires
            old(self).wf(),
        ensures
            final(self).wf(),
            final(self).continues(old(self)),
            final(self).current == old(self).current,
            final(self)@ == grammar::reported(old(self).tokens@, old(self)@, message@),
    {
        let token = self.peek();
        self.error_at(&token, message);
    }

    fn consume(&mut self, kind: TokenType, message: String) -> (r: Result<Token, ()>)
        requires
            old(self).wf(),
        ensures
            final(self).wf(),
            final(self).continues(old(self)),
            outcome(final(self)@, r) == grammar::consume(
                old(self).tokens@,
                old(self)@,
                kind,
                message@,
            ),
            r is Ok ==> final(self).current > old(self).current,
    {
        if self.check(kind) {
            let token = self.peek();
            self.advance();
            Ok(token)
        } else {
            self.error_here(message);
            Err(())
        }
    }

    fn add_expr(&mut self, e: Expr) -> (id: usize)
        requires
            old(self).wf(),
            expr_below(e@, old(self).ast@.exprs.len() as int),
            old(self).ast@.expr_ranged(e@),
        ensures
            final(self).wf(),
            final(self).continues(old(self)),
            final(self).current == old(self).current,
            done(final(self)@, id) == grammar::new_expr(old(self)@, e@),
            id < final(self).ast@.exprs.len(),
            final(self).ast@.stmts == old(self).ast@.stmts,
            final(self).ast@.ranges == old(self).ast@.ranges,
            final(self).ast@.exprs.len() == old(self).ast@.exprs.len() + 1,
            id == old(self).ast@.exprs.len(),
            final(self).ast@.lows[id as int] == old(self).ast@.low_of(e@, id),
    {
        let id = self.ast.add_expr(e);
        let count = self.ast.exprs.len();
        proof {
            assert(self.ast@.exprs.len() == self.ast.exprs@.len());
            assert(count == old(self).ast@.exprs.len() + 1);
            crate::ast::lemma_lens(old(self).ast@);
            crate::ast::lemma_with_expr_wf(old(self).ast@, e@);
        }
        id
    }

    fn add_stmt(&mut self, s: Stmt) -> (id: usize)
        requires
            old(self).wf(),
            stmt_below(s@, old(self).ast@.stmts.len() as int, old(self).ast@.exprs.len() as int),
            branches_plain(old(self).ast@.stmts, s@),
            old(self).ast@.stmt_apart(s@),
        ensures
            final(self).wf(),
            final(self).continues(old(self)),
            final(self).current == old(self).current,
            done(final(self)@, id) == grammar::new_stmt(old(self)@, s@),
            id < final(self).ast@.stmts.len(),
            final(self).ast@.stmts[id as int] == s@,
            final(self).ast@.exprs == old(self).ast@.exprs,
            final(self).ast@.lows == old(self).ast@.lows,
            id == old(self).ast@.stmts.len(),
            final(self).ast@.ranges[id as int] == old(self).ast@.range_of(s@),
            final(self).ast@.ranges[id as int].1 <= final(self).ast@.exprs.len(),
    {
        proof {
            crate::ast::lemma_lens(self.ast@);
            crate::ast::lemma_with_stmt_wf(self.ast@, s@);
        }
        self.ast.add_stmt(s)
    }

    /// Reads a program: declarations up to the end of the input. The result
    /// is their list, or `Err` if a diagnostic was given, by this call or
    /// before it.
    #[verifier::rlimit(40)]
    pub fn parse(&mut self) -> (r: Result<Vec<usize>, ()>)
        requires
            old(self).wf(),
        ensures
            final(self).wf(),
            final(self).continues(old(self)),
            r matches Ok(list) ==> fresh_list(old(self).ast@, final(self).ast@, list@),
            outcome_list(final(self)@, r) == grammar::parse(old(self).tokens@, old(self)@),
            r matches Ok(list) ==> all_below(list@, final(self).ast@.stmts.len() as int),
    {
        let mut statements: Vec<usize> = Vec::new();
        while !self.is_at_end()
            invariant
                self.wf(),
                self.continues(old(self)),
                all_below(statements@, self.ast@.stmts.len() as int),
                fresh_list(old(self).ast@, self.ast@, statements@),
                grammar::program(old(self).tokens@, old(self)@, Seq::empty()) == grammar::program(
                    self.tokens@,
                    self@,
                    statements@,
                ),
            decreases grammar::remaining(self.tokens@, self@),
        {
            let ghost mid = self.ast@;
            let ghost had = statements@;
            match self.declaration() {
                Ok(statement) => {
                    statements.push(statement);
                    proof {
                        let now = self.ast@;
                        let list = statements@;
                        assert forall|k: int| 0 <= k < list.len() implies fresh_stmt(
                            old(self).ast@,
                            now,
                            #[trigger] list[k],
                        ) by {
                            if k < had.len() {
                                assert(list[k] == had[k]);
                                assert(fresh_stmt(old(self).ast@, mid, had[k]));
                                assert(now.ranges[had[k] as int] == mid.ranges[had[k] as int]);
                            }
                        }
                        assert forall|i: int, j: int| 0 <= i < j < list.len() implies apart(
                            now.ranges[#[trigger] list[i] as int],
                            now.ranges[#[trigger] list[j] as int],
                        ) by {
                            assert(list[i] == had[i]);
                            assert(fresh_stmt(old(self).ast@, mid, had[i]));
                            assert(now.ranges[had[i] as int] == mid.ranges[had[i] as int]);
                            if j < had.len() {
                                assert(list[j] == had[j]);
                                assert(now.ranges[had[j] as int] == mid.ranges[had[j] as int]);
                                assert(apart(mid.ranges[had[i] as int], mid.ranges[had[j] as int]));
                            }
                        }
                    }
                },
                Err(_) => self.had_error = true,
            };
        }
        if self.had_error {
            Err(())
        } else {
            Ok(statements)
        }
    }

    /// Reads one declaration. Where the tokens do not fit, it recovers and
    /// gives a placeholder, so the result is always `Ok`.
    #[verifier::rlimit(40)]
    pub fn declaration(&mut self) -> (r: Result<usize, ()>)
        requires
            old(self).wf(),
        ensures
            final(self).wf(),
            final(self).continues(old(self)),
            r matches Ok(s) ==> fresh_stmt(old(self).ast@, final(self).ast@, s),
            outcome(final(self)@, r) == grammar::declaration(old(self).tokens@, old(self)@),
            r is Ok,
            r->Ok_0 < final(self).ast@.stmts.len(),
            kind_at(old(self).tokens@, old(self)@) != TokenType::EOF ==> final(self).current > old(self).current,
        decreases grammar::remaining(old(self).tokens@, old(self)@), 150int,
    {
        match self.declared() {
            Ok(stmt) => Ok(stmt),
            Err(_) => Ok(self.recover(Ghost(old(self).current as int))),
        }
    }

    /// Reads one declaration as it stands, without recovery.
    #[verifier::rlimit(40)]
    fn declared(&mut self) -> (r: Result<usize, ()>)
        requires
            old(self).wf(),
        ensures
            final(self).wf(),
            final(self).continues(old(self)),
            r matches Ok(s) ==> fresh_stmt(old(self).ast@, final(self).ast@, s),
            outcome(final(self)@, r) == grammar::declared(old(self).tokens@, old(self)@),
            r is Ok ==> final(self).current > old(self).current && r->Ok_0 < final(self).ast@.stmts.len(),
        decreases grammar::remaining(old(self).tokens@, old(self)@), 149int,
    {
        if self.match_token(TokenType::VAR) {
            self.var_declaration()
        } else if self.match_token(TokenType::FUN) {
            self.function(text("function"))
        } else {
            self.statement()
        }
    }

    /// Recovers from an error in a declaration that began at the position
    /// `start` and gives the statement that stands for what could not be
    /// read.
    fn recover(&mut self, Ghost(start): Ghost<int>) -> (id: usize)
        requires
            old(self).wf(),
            0 <= start <= old(self).current,
        ensures
            final(self).wf(),
            final(self).continues(old(self)),
            fresh_stmt(old(self).ast@, final(self).ast@, id),
            done(final(self)@, id) == grammar::placeholder(
                Parsing {
                    had_error: true,
                    ..grammar::synchronized(old(self).tokens@, old(self)@)
                },
            ),
            id < final(self).ast@.stmts.len(),
            start + 1 < old(self).tokens.len() && old(self).tokens[start].kind != TokenType::EOF
                ==> final(self).current > start,
    {
        self.synchronize();
        self.had_error = true;
        let value = self.add_expr(Expr::Literal { value: Literal::Nil });
        self.add_stmt(Stmt::Expression { expression: value })
    }

    /// Reads a variable declaration, after its keyword.
    #[verifier::rlimit(40)]
    pub fn var_declaration(&mut self) -> (r: Result<usize, ()>)
        requires
            old(self).wf(),
        ensures
            final(self).wf(),
            final(self).continues(old(self)),
            r matches Ok(s) ==> fresh_stmt(old(self).ast@, final(self).ast@, s),
            outcome(final(self)@, r) == grammar::var_declaration(old(self).tokens@, old(self)@),
            r is Ok ==> final(self).current > old(self).current && r->Ok_0 < final(self).ast@.stmts.len(),
        decreases grammar::remaining(old(self).tokens@, old(self)@), 133int,
    {
        let name = match self.consume(TokenType::IDENTIFIER, text("Expect variable name.")) {
            Ok(identifier) => identifier,
            Err(_) => {
                return Err(());
            },
        };
        let initializer = if self.match_token(TokenType::EQUAL) {
            match self.expression() {
                Ok(expr) => expr,
                Err(_) => {
                    return Err(());
                },
            }
        } else {
            self.add_expr(Expr::Literal { value: Literal::Nil })
        };
        match self.consume(TokenType::SEMICOLON, text("Expect ';' after variable declaration.")) {
            Ok(_) => {},
            Err(_) => {
                return Err(());
            },
        }
        let id = self.add_stmt(Stmt::Var { name, initializer });
        Ok(id)
    }

    /// A condition in parentheses; the messages are for a missing
    /// parenthesis before and behind it.
    fn condition(&mut self, before: String, behind: String) -> (r: Result<usize, ()>)
        requires
            old(self).wf(),
        ensures
            final(self).wf(),
            final(self).continues(old(self)),
            r matches Ok(e) ==> fresh_expr(old(self).ast@, final(self).ast@, e),
            outcome(final(self)@, r) == grammar::condition(
                old(self).tokens@,
                old(self)@,
                before@,
                behind@,
            ),
            r is Ok ==> final(self).current > old(self).current && r->Ok_0 < final(self).ast@.exprs.len(),
        decreases grammar::remaining(old(self).tokens@, old(self)@), 132int,
    {
        match self.consume(TokenType::LEFT_PAREN, before) {
            Ok(_) => {},
            Err(_) => {
                return Err(());
            },
        }
        let condition = match self.expression() {
            Ok(expr) => expr,
            Err(_) => {
                return Err(());
            },
        };
        match self.consume(TokenType::RIGHT_PAREN, behind) {
            Ok(_) => {},
            Err(_) => {
                return Err(());
            },
        }
        Ok(condition)
    }

    /// Reads a `while` statement, after its keyword.
    #[verifier::rlimit(40)]
    pub fn while_statement(&mut self) -> (r: Result<usize, ()>)
        requires
            old(self).wf(),
        ensures
            final(self).wf(),
            final(self).continues(old(self)),
            r matches Ok(s) ==> fresh_stmt(old(self).ast@, final(self).ast@, s),
            outcome(final(self)@, r) == grammar::while_statement(old(self).tokens@, old(self)@),
            r is Ok ==> final(self).current > old(self).current && r->Ok_0 < final(self).ast@.stmts.len(),
            r matches Ok(id) ==> plain(final(self).ast@.stmts[id as int]),
        decreases grammar::remaining(old(self).tokens@, old(self)@), 141int,
    {
        let condition = match self.condition(
            text("Expect '(' after 'while'."),
            text("Expect ')' after condition."),
        ) {
            Ok(expr) => expr,
            Err(_) => {
                return Err(());
            },
        };
        let body = match self.statement() {
            Ok(stmt) => stmt,
            Err(_) => {
                return Err(());
            },
        };
        let id = self.add_stmt(Stmt::While { condition, body });
        Ok(id)
    }

    /// Reads one statement.
    #[verifier::rlimit(40)]
    pub fn statement(&mut self) -> (r: Result<usize, ()>)
        requires
            old(self).wf(),
        ensures
            final(self).wf(),
            final(self).continues(old(self)),
            r matches Ok(s) ==> fresh_stmt(old(self).ast@, final(self).ast@, s),
            outcome(final(self)@, r) == grammar::statement(old(self).tokens@, old(self)@),
            r is Ok ==> final(self).current > old(self).current && r->Ok_0 < final(self).ast@.stmts.len(),
            r matches Ok(id) ==> plain(final(self).ast@.stmts[id as int]),
        decreases grammar::remaining(old(self).tokens@, old(self)@), 140int,
    {
        if self.match_token(TokenType::FOR) {
            return self.for_statement();
        }
        if self.match_token(TokenType::IF) {
            return self.if_statement();
        }
        if self.match_token(TokenType::PRINT) {
            return self.print_statement();
        }
        if self.match_token(TokenType::RETURN) {
            return self.return_statement();
        }
        if self.match_token(TokenType::WHILE) {
            return self.while_statement();
        }
        if self.match_token(TokenType::LEFT_BRACE) {
            return self.braced();
        }
        self.expression_statement()
    }

    /// Reads a block as a statement, after its opening brace.
    fn braced(&mut self) -> (r: Result<usize, ()>)
        requires
            old(self).wf(),
        ensures
            final(self).wf(),
            final(self).continues(old(self)),
            r matches Ok(s) ==> fresh_stmt(old(self).ast@, final(self).ast@, s),
            outcome(final(self)@, r) == grammar::braced(old(self).tokens@, old(self)@),
            r is Ok ==> final(self).current > old(self).current && r->Ok_0 < final(self).ast@.stmts.len(),
            r matches Ok(id) ==> plain(final(self).ast@.stmts[id as int]),
        decreases grammar::remaining(old(self).tokens@, old(self)@), 153int,
    {
        match self.block() {
            Ok(statements) => {
                proof {
                    lemma_lens(old(self).ast@);
                    lemma_list_fresh(
                        old(self).ast@.exprs.len() as int,
                        self.ast@,
                        statements@,
                    );
                }
                let id = self.add_stmt(Stmt::Block { statements });
                Ok(id)
            },
            Err(_) => Err(()),
        }
    }

    /// The first clause of a `for`.
    fn for_initializer(&mut self) -> (r: Result<Option<usize>, ()>)
        requires
            old(self).wf(),
        ensures
            final(self).wf(),
            final(self).continues(old(self)),
            r matches Ok(Some(s)) ==> fresh_stmt(old(self).ast@, final(self).ast@, s),
            outcome(final(self)@, r) == grammar::for_initializer(old(self).tokens@, old(self)@),
            r matches Ok(Some(id)) ==> id < final(self).ast@.stmts.len(),
        decreases grammar::remaining(old(self).tokens@, old(self)@), 134int,
    {
        if self.match_token(TokenType::SEMICOLON) {
            Ok(None)
        } else if self.match_token(TokenType::VAR) {
            match self.var_declaration() {
                Ok(stmt) => Ok(Some(stmt)),
                Err(_) => Err(()),
            }
        } else {
            match self.expression_statement() {
                Ok(stmt) => Ok(Some(stmt)),
                Err(_) => Err(()),
            }
        }
    }

    /// A clause of a `for` that may be empty, with the token that ends it.
    fn for_clause(&mut self, end: TokenType, message: String) -> (r: Result<Option<usize>, ()>)
        requires
            old(self).wf(),
        ensures
            final(self).wf(),
            final(self).continues(old(self)),
            r matches Ok(Some(e)) ==> fresh_expr(old(self).ast@, final(self).ast@, e),
            outcome(final(self)@, r) == grammar::for_clause(
                old(self).tokens@,
                old(self)@,
                end,
                message@,
            ),
            r matches Ok(Some(id)) ==> id < final(self).ast@.exprs.len(),
        decreases grammar::remaining(old(self).tokens@, old(self)@), 132int,
    {
        let value = if self.peek_kind() != end {
            match self.expression() {
                Ok(expr) => Some(expr),
                Err(_) => {
                    return Err(());
                },
            }
        } else {
            None
        };
        match self.consume(end, message) {
            Ok(_) => {},
            Err(_) => {
                return Err(());
            },
        }
        Ok(value)
    }

    /// Makes the loop that a `for` with these clauses and this body stands
    /// for. The clauses and the body were read behind `base`.
    fn for_loop(
        &mut self,
        initializer: Option<usize>,
        test: Option<usize>,
        increment: Option<usize>,
        body: usize,
        Ghost(base): Ghost<int>,
    ) -> (id: usize)
        requires
            old(self).wf(),
            initializer matches Some(i) ==> i < old(self).ast@.stmts.len(),
            test matches Some(e) ==> e < old(self).ast@.exprs.len(),
            increment matches Some(e) ==> e < old(self).ast@.exprs.len(),
            body < old(self).ast@.stmts.len(),
            plain(old(self).ast@.stmts[body as int]),
            0 <= base <= old(self).ast@.exprs.len(),
            old(self).ast@.ranges[body as int].1 <= old(self).ast@.exprs.len(),
            for_ordered(old(self).ast@, base, initializer, test, increment, body),
        ensures
            final(self).wf(),
            final(self).continues(old(self)),
            final(self).current == old(self).current,
            plain(final(self).ast@.stmts[id as int]),
            done(final(self)@, id) == grammar::for_loop(
                old(self)@,
                initializer,
                test,
                increment,
                body,
            ),
            id < final(self).ast@.stmts.len(),
            base <= final(self).ast@.ranges[id as int].0,
            final(self).ast@.ranges[id as int].1 <= final(self).ast@.exprs.len(),
    {
        reveal_with_fuel(floor_of, 3);
        reveal_with_fuel(top_of, 3);
        let ghost inner = self.ast@.ranges[body as int];
        proof {
            if initializer is Some {
                crate::ast::lemma_stmt_below(self.ast@, initializer->0 as int);
            }
        }
        let stepped = match increment {
            Some(e) => {
                let step = self.add_stmt(Stmt::Expression { expression: e });
                let mut statements: Vec<usize> = Vec::new();
                statements.push(body);
                statements.push(step);
                assert(statements@ =~= seq![body, step]);
                assert(self.ast@.ranges[body as int] == inner);
                assert(apart(self.ast@.ranges[body as int], self.ast@.ranges[step as int]));
                self.add_stmt(Stmt::Block { statements })
            },
            None => {
                let mut statements: Vec<usize> = Vec::new();
                statements.push(body);
                assert(statements@ =~= seq![body]);
                self.add_stmt(Stmt::Block { statements })
            },
        };
        let ghost block = self.ast@.ranges[stepped as int];
        assert(block.1 <= self.ast@.exprs.len());
        assert(base <= block.0);
        assert(test matches Some(c) ==> c < block.0);
        assert(initializer matches Some(i) ==> self.ast@.ranges[i as int].1 <= block.0);
        let guard = match test {
            Some(e) => e,
            None => self.add_expr(Expr::Literal { value: Literal::Boolean(true) }),
        };
        assert(self.ast@.ranges[stepped as int] == block);
        assert(test matches Some(c) ==> self.ast@.lows[c as int] == old(self).ast@.lows[c as int]);
        assert(initializer matches Some(i) ==> self.ast@.ranges[i as int] == old(self).ast@.ranges[i as int]);
        assert(base <= self.ast@.lows[guard as int]);
        assert(initializer matches Some(i) ==> self.ast@.ranges[i as int].1
            <= self.ast@.lows[guard as int]);
        let repeated = self.add_stmt(Stmt::While { condition: guard, body: stepped });
        let ghost whole = self.ast@.ranges[repeated as int];
        assert(base <= whole.0);
        match initializer {
            Some(first) => {
                let mut statements: Vec<usize> = Vec::new();
                statements.push(first);
                statements.push(repeated);
                assert(statements@ =~= seq![first, repeated]);
                assert(self.ast@.ranges[first as int] == old(self).ast@.ranges[first as int]);
                assert(apart(self.ast@.ranges[first as int], self.ast@.ranges[repeated as int]));
                self.add_stmt(Stmt::Block { statements })
            },
            None => repeated,
        }
    }

    /// Reads a `for` statement, after its keyword, and gives the `while`
    /// loop it stands for.
    #[verifier::rlimit(40)]
    fn for_statement(&mut self) -> (r: Result<usize, ()>)
        requires
            old(self).wf(),
        ensures
            final(self).wf(),
            final(self).continues(old(self)),
            r matches Ok(s) ==> fresh_stmt(old(self).ast@, final(self).ast@, s),
            outcome(final(self)@, r) == grammar::for_statement(old(self).tokens@, old(self)@),
            r is Ok ==> final(self).current > old(self).current && r->Ok_0 < final(self).ast@.stmts.len(),
            r matches Ok(id) ==> plain(final(self).ast@.stmts[id as int]),
        decreases grammar::remaining(old(self).tokens@, old(self)@), 141int,
    {
        match self.consume(TokenType::LEFT_PAREN, text("Expect '(' after 'for'.")) {
            Ok(_) => {},
            Err(_) => {
                return Err(());
            },
        }
        let initializer = match self.for_initializer() {
            Ok(first) => first,
            Err(_) => {
                return Err(());
            },
        };
        let condition = match self.for_clause(
            TokenType::SEMICOLON,
            text("Expect ';' after loop condition."),
        ) {
            Ok(expr) => expr,
            Err(_) => {
                return Err(());
            },
        };
        let increment = match self.for_clause(
            TokenType::RIGHT_PAREN,
            text("Expect ')' after for clause."),
        ) {
            Ok(expr) => expr,
            Err(_) => {
                return Err(());
            },
        };
        let body = match self.statement() {
            Ok(stmt) => stmt,
            Err(_) => {
                return Err(());
            },
        };
        let id = self.for_loop(
            initializer,
            condition,
            increment,
            body,
            Ghost(old(self).ast@.exprs.len() as int),
        );
        Ok(id)
    }

    /// Reads an `if` statement, after its keyword.
    #[verifier::rlimit(40)]
    fn if_statement(&mut self) -> (r: Result<usize, ()>)
        requires
            old(self).wf(),
        ensures
            final(self).wf(),
            final(self).continues(old(self)),
            r matches Ok(s) ==> fresh_stmt(old(self).ast@, final(self).ast@, s),
            outcome(final(self)@, r) == grammar::if_statement(old(self).tokens@, old(self)@),
            r is Ok ==> final(self).current > old(self).current && r->Ok_0 < final(self).ast@.stmts.len(),
            r matches Ok(id) ==> plain(final(self).ast@.stmts[id as int]),
        decreases grammar::remaining(old(self).tokens@, old(self)@), 141int,
    {
        let condition = match self.condition(
            text("Expect '(' after 'if'."),
            text("Expect ')' after if condition."),
        ) {
            Ok(expr) => expr,
            Err(_) => {
                return Err(());
            },
        };
        let then_branch = match self.statement() {
            Ok(stmt) => stmt,
            Err(_) => {
                return Err(());
            },
        };
        let ghost first = self.ast@;
        let else_branch = if self.match_token(TokenType::ELSE) {
            match self.statement() {
                Ok(stmt) => Some(stmt),
                Err(_) => {
                    return Err(());
                },
            }
        } else {
            None
        };
        assert(self.ast@.stmts[then_branch as int] == first.stmts[then_branch as int]);
        let id = self.add_stmt(Stmt::If { condition, then_branch, else_branch });
        Ok(id)
    }

    /// Reads the declarations of a block and its closing brace, after the
    /// opening one.
    #[verifier::rlimit(40)]
    fn block(&mut self) -> (r: Result<Vec<usize>, ()>)
        requires
            old(self).wf(),
        ensures
            final(self).wf(),
            final(self).continues(old(self)),
            r matches Ok(list) ==> fresh_list(old(self).ast@, final(self).ast@, list@),
            outcome_list(final(self)@, r) == grammar::block(old(self).tokens@, old(self)@),
            r matches Ok(list) ==> final(self).current > old(self).current && all_below(
                list@,
                final(self).ast@.stmts.len() as int,
            ) && list@.len() <= usize::MAX,
        decreases grammar::remaining(old(self).tokens@, old(self)@), 152int,
    {
        let mut statements: Vec<usize> = Vec::new();
        while !self.check(TokenType::RIGHT_BRACE) && !self.is_at_end()
            invariant
                self.wf(),
                self.continues(old(self)),
                all_below(statements@, self.ast@.stmts.len() as int),
                fresh_list(old(self).ast@, self.ast@, statements@),
                grammar::declarations(old(self).tokens@, old(self)@, Seq::empty())
                    == grammar::declarations(self.tokens@, self@, statements@),
            decreases grammar::remaining(self.tokens@, self@),
        {
            let ghost mid = self.ast@;
            let ghost had = statements@;
            match self.declaration() {
                Ok(statement) => {
                    statements.push(statement);
                    proof {
                        let now = self.ast@;
                        let list = statements@;
                        assert forall|k: int| 0 <= k < list.len() implies fresh_stmt(
                            old(self).ast@,
                            now,
                            #[trigger] list[k],
                        ) by {
                            if k < had.len() {
                                assert(list[k] == had[k]);
                                assert(fresh_stmt(old(self).ast@, mid, had[k]));
                                assert(now.ranges[had[k] as int] == mid.ranges[had[k] as int]);
                            }
                        }
                        assert forall|i: int, j: int| 0 <= i < j < list.len() implies apart(
                            now.ranges[#[trigger] list[i] as int],
                            now.ranges[#[trigger] list[j] as int],
                        ) by {
                            assert(list[i] == had[i]);
                            assert(fresh_stmt(old(self).ast@, mid, had[i]));
                            assert(now.ranges[had[i] as int] == mid.ranges[had[i] as int]);
                            if j < had.len() {
                                assert(list[j] == had[j]);
                                assert(now.ranges[had[j] as int] == mid.ranges[had[j] as int]);
                                assert(apart(mid.ranges[had[i] as int], mid.ranges[had[j] as int]));
                            }
                        }
                    }
                },
                Err(_) => {
                    return Err(());
                },
            }
        }
        proof {
            vstd::std_specs::vec::axiom_spec_len(&statements);
        }
        match self.consume(TokenType::RIGHT_BRACE, text("Expect '}' after block.")) {
            Ok(_) => Ok(statements),
            Err(_) => Err(()),
        }
    }

    /// An expression and the semicolon that ends a statement.
    fn terminated(&mut self) -> (r: Result<usize, ()>)
        requires
            old(self).wf(),
        ensures
            final(self).wf(),
            final(self).continues(old(self)),
            r matches Ok(e) ==> fresh_expr(old(self).ast@, final(self).ast@, e),
            outcome(final(self)@, r) == grammar::terminated(old(self).tokens@, old(self)@),
            r is Ok ==> final(self).current > old(self).current && r->Ok_0 < final(self).ast@.exprs.len(),
        decreases grammar::remaining(old(self).tokens@, old(self)@), 132int,
    {
        let expression = match self.expression() {
            Ok(expr) => expr,
            Err(_) => {
                return Err(());
            },
        };
        match self.consume(TokenType::SEMICOLON, text("Expect ';' after value")) {
            Ok(_) => Ok(expression),
            Err(_) => Err(()),
        }
    }

    /// Reads a `print` statement, after its keyword.
    pub fn print_statement(&mut self) -> (r: Result<usize, ()>)
        requires
            old(self).wf(),
        ensures
            final(self).wf(),
            final(self).continues(old(self)),
            r matches Ok(s) ==> fresh_stmt(old(self).ast@, final(self).ast@, s),
            outcome(final(self)@, r) == grammar::print_statement(old(self).tokens@, old(self)@),
            r is Ok ==> final(self).current > old(self).current && r->Ok_0 < final(self).ast@.stmts.len(),
            r matches Ok(id) ==> plain(final(self).ast@.stmts[id as int]),
        decreases grammar::remaining(old(self).tokens@, old(self)@), 133int,
    {
        match self.terminated() {
            Ok(expression) => {
                let id = self.add_stmt(Stmt::Print { expression });
                Ok(id)
            },
            Err(_) => Err(()),
        }
    }

    /// Reads an expression statement.
    pub fn expression_statement(&mut self) -> (r: Result<usize, ()>)
        requires
            old(self).wf(),
        ensures
            final(self).wf(),
            final(self).continues(old(self)),
            r matches Ok(s) ==> fresh_stmt(old(self).ast@, final(self).ast@, s),
            outcome(final(self)@, r) == grammar::expression_statement(
                old(self).tokens@,
                old(self)@,
            ),
            r is Ok ==> final(self).current > old(self).current && r->Ok_0 < final(self).ast@.stmts.len(),
            r matches Ok(id) ==> plain(final(self).ast@.stmts[id as int]),
        decreases grammar::remaining(old(self).tokens@, old(self)@), 133int,
    {
        match self.terminated() {
            Ok(expression) => {
                let id = self.add_stmt(Stmt::Expression { expression });
                Ok(id)
            },
            Err(_) => Err(()),
        }
    }

    /// Reads a `return` statement, after its keyword.
    #[verifier::rlimit(40)]
    pub fn return_statement(&mut self) -> (r: Result<usize, ()>)
        requires
            old(self).wf(),
            old(self).current > 0,
        ensures
            final(self).wf(),
            final(self).continues(old(self)),
            r matches Ok(s) ==> fresh_stmt(old(self).ast@, final(self).ast@, s),
            outcome(final(self)@, r) == grammar::return_statement(old(self).tokens@, old(self)@),
            r is Ok ==> final(self).current > old(self).current && r->Ok_0 < final(self).ast@.stmts.len(),
            r matches Ok(id) ==> plain(final(self).ast@.stmts[id as int]),
        decreases grammar::remaining(old(self).tokens@, old(self)@), 133int,
    {
        let keyword = self.previous();
        let value = if !self.check(TokenType::SEMICOLON) {
            match self.expression() {
                Ok(expr) => expr,
                Err(_) => {
                    return Err(());
                },
            }
        } else {
            self.add_expr(Expr::Literal { value: Literal::Nil })
        };
        match self.consume(TokenType::SEMICOLON, text("Expect ';' after return value.")) {
            Ok(_) => {},
            Err(_) => {
                return Err(());
            },
        }
        let id = self.add_stmt(Stmt::Return { keyword, value });
        Ok(id)
    }

    /// The parameters of a function, up to the token that follows the
    /// last.
    fn parameters(&mut self) -> (r: Result<Vec<Token>, ()>)
        requires
            old(self).wf(),
        ensures
            final(self).wf(),
            final(self).continues(old(self)),
            outcome_list(final(self)@, r) == grammar::parameters(
                old(self).tokens@,
                old(self)@,
                Seq::empty(),
            ),
            r matches Ok(list) ==> list@.len() <= MAX_ARITY,
    {
        let mut params: Vec<Token> = Vec::new();
        loop
            invariant
                self.wf(),
                self.continues(old(self)),
                params@.len() <= MAX_ARITY,
                grammar::parameters(old(self).tokens@, old(self)@, Seq::empty())
                    == grammar::parameters(self.tokens@, self@, params@),
            decreases grammar::remaining(self.tokens@, self@),
        {
            let ghost before = self@;
            let ghost found = params@;
            let full = params.len() >= MAX_ARITY;
            if full {
                self.error_here(text("Can't have more than 255 parameters."));
            }
            let name = match self.consume(TokenType::IDENTIFIER, text("Expect parameter name.")) {
                Ok(token) => token,
                Err(_) => {
                    assert(grammar::parameters(self.tokens@, before, found) == fail::<Seq<Token>>(
                        self@,
                    ));
                    return Err(());
                },
            };
            if !full {
                params.push(name);
            }
            if !self.match_token(TokenType::COMMA) {
                assert(grammar::parameters(self.tokens@, before, found) == done(self@, params@));
                return Ok(params);
            }
            assert(grammar::parameters(self.tokens@, before, found) == grammar::parameters(
                self.tokens@,
                self@,
                params@,
            ));
        }
    }

    /// Reads a function, after its keyword; `kind` says in the diagnostics
    /// what is declared.
    #[verifier::rlimit(40)]
    pub fn function(&mut self, kind: String) -> (r: Result<usize, ()>)
        requires
            old(self).wf(),
        ensures
            final(self).wf(),
            final(self).continues(old(self)),
            r matches Ok(s) ==> fresh_stmt(old(self).ast@, final(self).ast@, s),
            outcome(final(self)@, r) == grammar::function(old(self).tokens@, old(self)@, kind@),
            r is Ok ==> final(self).current > old(self).current && r->Ok_0 < final(self).ast@.stmts.len(),
        decreases grammar::remaining(old(self).tokens@, old(self)@), 153int,
    {
        let mut message = text("Expect ");
        message.append(kind.as_str());
        message.append(" name.");
        let name = match self.consume(TokenType::IDENTIFIER, message) {
            Ok(token) => token,
            Err(_) => {
                return Err(());
            },
        };
        let mut message = text("Expect '(' after ");
        message.append(kind.as_str());
        message.append(" name.");
        match self.consume(TokenType::LEFT_PAREN, message) {
            Ok(_) => {},
            Err(_) => {
                return Err(());
            },
        }
        let params = if !self.check(TokenType::RIGHT_PAREN) {
            match self.parameters() {
                Ok(list) => list,
                Err(_) => {
                    return Err(());
                },
            }
        } else {
            Vec::new()
        };
        match self.consume(TokenType::RIGHT_PAREN, text("Expect ')' after parameters.")) {
            Ok(_) => {},
            Err(_) => {
                return Err(());
            },
        }
        let mut message = text("Expect '{' before ");
        message.append(kind.as_str());
        message.append(" body.");
        match self.consume(TokenType::LEFT_BRACE, message) {
            Ok(_) => {},
            Err(_) => {
                return Err(());
            },
        }
        let body = match self.block() {
            Ok(statements) => statements,
            Err(_) => {
                return Err(());
            },
        };
        proof {
            lemma_lens(old(self).ast@);
            lemma_list_fresh(old(self).ast@.exprs.len() as int, self.ast@, body@);
        }
        let id = self.add_stmt(Stmt::Function { name, params, body });
        Ok(id)
    }

    /// Recovers from an error: gives up one token, then more, until the
    /// last one taken was a semicolon or the next one starts a statement or
    /// the input ends.
    pub fn synchronize(&mut self)
        requires
            old(self).wf(),
        ensures
            final(self).wf(),
            final(self).continues(old(self)),
            final(self)@ == grammar::synchronized(old(self).tokens@, old(self)@),
            kind_at(old(self).tokens@, old(self)@) != TokenType::EOF ==> final(self).current > old(self).current,
    {
        self.advance();
        while !self.is_at_end()
            invariant
                self.wf(),
                self.continues(old(self)),
                kind_at(old(self).tokens@, old(self)@) != TokenType::EOF ==> self.current > old(self).current,
                kind_at(self.tokens@, self@) != TokenType::EOF ==> self.current > 0,
                grammar::synchronized(old(self).tokens@, old(self)@) == grammar::resumed(
                    self.tokens@,
                    self@,
                ),
            decreases grammar::remaining(self.tokens@, self@),
        {
            reveal_with_fuel(grammar::resumed, 2);
            if self.tokens[self.current - 1].kind == TokenType::SEMICOLON {
                return ;
            }
            let kind = self.peek_kind();
            if kind == TokenType::CLASS || kind == TokenType::FUN || kind == TokenType::VAR || kind
                == TokenType::FOR || kind == TokenType::IF || kind == TokenType::WHILE || kind
                == TokenType::PRINT || kind == TokenType::RETURN {
                return ;
            }
            self.advance();
        }
        reveal_with_fuel(grammar::resumed, 2);
    }

    fn expression(&mut self) -> (r: Result<usize, ()>)
        requires
            old(self).wf(),
        ensures
            final(self).wf(),
            final(self).continues(old(self)),
            r matches Ok(e) ==> fresh_expr(old(self).ast@, final(self).ast@, e),
            outcome(final(self)@, r) == grammar::expression(old(self).tokens@, old(self)@),
            r is Ok ==> final(self).current > old(self).current && r->Ok_0 < final(self).ast@.exprs.len(),
        decreases grammar::remaining(old(self).tokens@, old(self)@), 131int,
    {
        self.assignment()
    }

    fn assignment(&mut self) -> (r: Result<usize, ()>)
        requires
            old(self).wf(),
        ensures
            final(self).wf(),
            final(self).continues(old(self)),
            r matches Ok(e) ==> fresh_expr(old(self).ast@, final(self).ast@, e),
            outcome(final(self)@, r) == grammar::assignment(old(self).tokens@, old(self)@),
            r is Ok ==> final(self).current > old(self).current && r->Ok_0 < final(self).ast@.exprs.len(),
        decreases grammar::remaining(old(self).tokens@, old(self)@), 130int,
    {
        let target = match self.or() {
            Ok(e) => e,
            Err(_) => {
                return Err(());
            },
        };
        if self.check(TokenType::EQUAL) {
            let equals = self.peek();
            self.advance();
            let value = match self.assignment() {
                Ok(e) => e,
                Err(_) => {
                    return Err(());
                },
            };
            assert(self.ast@.exprs[target as int] == self.ast.exprs@[target as int]@);
            match &self.ast.exprs[target] {
                Expr::Variable { name } => {
                    let name = name.clone();
                    let id = self.add_expr(Expr::Assign { name, value });
                    Ok(id)
                },
                _ => {
                    self.error_at(&equals, text("Invalid assignment target."));
                    Ok(target)
                },
            }
        } else {
            Ok(target)
        }
    }

    fn or(&mut self) -> (r: Result<usize, ()>)
        requires
            old(self).wf(),
        ensures
            final(self).wf(),
            final(self).continues(old(self)),
            r matches Ok(e) ==> fresh_expr(old(self).ast@, final(self).ast@, e),
            outcome(final(self)@, r) == grammar::binary(
                old(self).tokens@,
                old(self)@,
                grammar::OR,
            ),
            r is Ok ==> final(self).current > old(self).current && r->Ok_0 < final(self).ast@.exprs.len(),
        decreases grammar::remaining(old(self).tokens@, old(self)@), 31int,
    {
        self.binary(grammar::OR)
    }

    fn and(&mut self) -> (r: Result<usize, ()>)
        requires
            old(self).wf(),
        ensures
            final(self).wf(),
            final(self).continues(old(self)),
            r matches Ok(e) ==> fresh_expr(old(self).ast@, final(self).ast@, e),
            outcome(final(self)@, r) == grammar::binary(
                old(self).tokens@,
                old(self)@,
                grammar::AND,
            ),
            r is Ok ==> final(self).current > old(self).current && r->Ok_0 < final(self).ast@.exprs.len(),
        decreases grammar::remaining(old(self).tokens@, old(self)@), 27int,
    {
        self.binary(grammar::AND)
    }

    fn equality(&mut self) -> (r: Result<usize, ()>)
        requires
            old(self).wf(),
        ensures
            final(self).wf(),
            final(self).continues(old(self)),
            r matches Ok(e) ==> fresh_expr(old(self).ast@, final(self).ast@, e),
            outcome(final(self)@, r) == grammar::binary(
                old(self).tokens@,
                old(self)@,
                grammar::EQUALITY,
            ),
            r is Ok ==> final(self).current > old(self).current && r->Ok_0 < final(self).ast@.exprs.len(),
        decreases grammar::remaining(old(self).tokens@, old(self)@), 23int,
    {
        self.binary(grammar::EQUALITY)
    }

    fn comparison(&mut self) -> (r: Result<usize, ()>)
        requires
            old(self).wf(),
        ensures
            final(self).wf(),
            final(self).continues(old(self)),
            r matches Ok(e) ==> fresh_expr(old(self).ast@, final(self).ast@, e),
            outcome(final(self)@, r) == grammar::binary(
                old(self).tokens@,
                old(self)@,
                grammar::COMPARISON,
            ),
            r is Ok ==> final(self).current > old(self).current && r->Ok_0 < final(self).ast@.exprs.len(),
        decreases grammar::remaining(old(self).tokens@, old(self)@), 19int,
    {
        self.binary(grammar::COMPARISON)
    }

    fn term(&mut self) -> (r: Result<usize, ()>)
        requires
            old(self).wf(),
        ensures
            final(self).wf(),
            final(self).continues(old(self)),
            r matches Ok(e) ==> fresh_expr(old(self).ast@, final(self).ast@, e),
            outcome(final(self)@, r) == grammar::binary(
                old(self).tokens@,
                old(self)@,
                grammar::TERM,
            ),
            r is Ok ==> final(self).current > old(self).current && r->Ok_0 < final(self).ast@.exprs.len(),
        decreases grammar::remaining(old(self).tokens@, old(self)@), 15int,
    {
        self.binary(grammar::TERM)
    }

    fn factor(&mut self) -> (r: Result<usize, ()>)
        requires
            old(self).wf(),
        ensures
            final(self).wf(),
            final(self).continues(old(self)),
            r matches Ok(e) ==> fresh_expr(old(self).ast@, final(self).ast@, e),
            outcome(final(self)@, r) == grammar::binary(
                old(self).tokens@,
                old(self)@,
                grammar::FACTOR,
            ),
            r is Ok ==> final(self).current > old(self).current && r->Ok_0 < final(self).ast@.exprs.len(),
        decreases grammar::remaining(old(self).tokens@, old(self)@), 11int,
    {
        self.binary(grammar::FACTOR)
    }

    /// An operand of an operator of the level `level`.
    fn operand(&mut self, level: u8) -> (r: Result<usize, ()>)
        requires
            old(self).wf(),
            grammar::FACTOR <= level <= grammar::OR,
        ensures
            final(self).wf(),
            final(self).continues(old(self)),
            r matches Ok(e) ==> fresh_expr(old(self).ast@, final(self).ast@, e),
            outcome(final(self)@, r) == grammar::operand(old(self).tokens@, old(self)@, level),
            r is Ok ==> final(self).current > old(self).current && r->Ok_0 < final(self).ast@.exprs.len(),
        decreases grammar::remaining(old(self).tokens@, old(self)@), 4 + 4 * level,
    {
        if level == grammar::FACTOR {
            self.unary()
        } else if level == grammar::TERM {
            self.factor()
        } else if level == grammar::COMPARISON {
            self.term()
        } else if level == grammar::EQUALITY {
            self.comparison()
        } else if level == grammar::AND {
            self.equality()
        } else {
            self.and()
        }
    }

    /// `kind` is an operator of the level `level`.
    fn is_operator(level: u8, kind: TokenType) -> (r: bool)
        ensures
            r == grammar::operator_of(level, kind),
    {
        if level == grammar::FACTOR {
            kind == TokenType::SLASH || kind == TokenType::STAR
        } else if level == grammar::TERM {
            kind == TokenType::MINUS || kind == TokenType::PLUS
        } else if level == grammar::COMPARISON {
            kind == TokenType::GREATER || kind == TokenType::GREATER_EQUAL || kind
                == TokenType::LESS || kind == TokenType::LESS_EQUAL
        } else if level == grammar::EQUALITY {
            kind == TokenType::BANG_EQUAL || kind == TokenType::EQUAL_EQUAL
        } else if level == grammar::AND {
            kind == TokenType::AND
        } else if level == grammar::OR {
            kind == TokenType::OR
        } else {
            false
        }
    }

    /// A chain of operands joined by operators of the level `level`,
    /// grouped to the left.
    fn binary(&mut self, level: u8) -> (r: Result<usize, ()>)
        requires
            old(self).wf(),
            grammar::FACTOR <= level <= grammar::OR,
        ensures
            final(self).wf(),
            final(self).continues(old(self)),
            r matches Ok(e) ==> fresh_expr(old(self).ast@, final(self).ast@, e),
            outcome(final(self)@, r) == grammar::binary(old(self).tokens@, old(self)@, level),
            r is Ok ==> final(self).current > old(self).current && r->Ok_0 < final(self).ast@.exprs.len(),
        decreases grammar::remaining(old(self).tokens@, old(self)@), 6 + 4 * level,
    {
        let mut expr = match self.operand(level) {
            Ok(e) => e,
            Err(_) => {
                return Err(());
            },
        };
        while Self::is_operator(level, self.peek_kind())
            invariant
                self.wf(),
                self.continues(old(self)),
                self.current > old(self).current,
                expr < self.ast@.exprs.len(),
                fresh_expr(old(self).ast@, self.ast@, expr),
                grammar::FACTOR <= level <= grammar::OR,
                grammar::binary(old(self).tokens@, old(self)@, level) == grammar::operations(
                    self.tokens@,
                    self@,
                    level,
                    expr,
                ),
            decreases grammar::remaining(self.tokens@, self@),
        {
            let operator = self.peek();
            self.advance();
            let right = match self.operand(level) {
                Ok(e) => e,
                Err(_) => {
                    return Err(());
                },
            };
            let node = if level >= grammar::AND {
                Expr::Logical { left: expr, operator, right }
            } else {
                Expr::Binary { left: expr, operator, right }
            };
            expr = self.add_expr(node);
        }
        Ok(expr)
    }

    fn unary(&mut self) -> (r: Result<usize, ()>)
        requires
            old(self).wf(),
        ensures
            final(self).wf(),
            final(self).continues(old(self)),
            r matches Ok(e) ==> fresh_expr(old(self).ast@, final(self).ast@, e),
            outcome(final(self)@, r) == grammar::unary(old(self).tokens@, old(self)@),
            r is Ok ==> final(self).current > old(self).current && r->Ok_0 < final(self).ast@.exprs.len(),
        decreases grammar::remaining(old(self).tokens@, old(self)@), 3int,
    {
        let kind = self.peek_kind();
        if kind == TokenType::BANG || kind == TokenType::MINUS {
            let operator = self.peek();
            self.advance();
            let right = match self.unary() {
                Ok(e) => e,
                Err(_) => {
                    return Err(());
                },
            };
            let id = self.add_expr(Expr::Unary { operator, right });
            return Ok(id);
        }
        self.call()
    }

    fn call(&mut self) -> (r: Result<usize, ()>)
        requires
            old(self).wf(),
        ensures
            final(self).wf(),
            final(self).continues(old(self)),
            r matches Ok(e) ==> fresh_expr(old(self).ast@, final(self).ast@, e),
            outcome(final(self)@, r) == grammar::call(old(self).tokens@, old(self)@),
            r is Ok ==> final(self).current > old(self).current && r->Ok_0 < final(self).ast@.exprs.len(),
        decreases grammar::remaining(old(self).tokens@, old(self)@), 2int,
    {
        let mut expr = match self.primary() {
            Ok(e) => e,
            Err(_) => {
                return Err(());
            },
        };
        while self.peek_kind() == TokenType::LEFT_PAREN
            invariant
                self.wf(),
                self.continues(old(self)),
                self.current > old(self).current,
                expr < self.ast@.exprs.len(),
                fresh_expr(old(self).ast@, self.ast@, expr),
                grammar::call(old(self).tokens@, old(self)@) == grammar::calls(
                    self.tokens@,
                    self@,
                    expr,
                ),
            decreases grammar::remaining(self.tokens@, self@),
        {
            self.advance();
            expr = match self.finish_call(expr) {
                Ok(e) => e,
                Err(_) => {
                    return Err(());
                },
            };
        }
        Ok(expr)
    }

    /// The arguments of a call, up to the token that follows the last.
    fn arguments(&mut self) -> (r: Result<Vec<usize>, ()>)
        requires
            old(self).wf(),
        ensures
            final(self).wf(),
            final(self).continues(old(self)),
            r matches Ok(list) ==> lined(
                final(self).ast@.lows,
                old(self).ast@.exprs.len() as int,
                list@,
            ),
            outcome_list(final(self)@, r) == grammar::arguments(
                old(self).tokens@,
                old(self)@,
                Seq::empty(),
            ),
            r matches Ok(list) ==> list@.len() <= MAX_ARITY && all_below(
                list@,
                final(self).ast@.exprs.len() as int,
            ),
        decreases grammar::remaining(old(self).tokens@, old(self)@), 135int,
    {
        let mut arguments: Vec<usize> = Vec::new();
        loop
            invariant
                self.wf(),
                self.continues(old(self)),
                arguments@.len() <= MAX_ARITY,
                all_below(arguments@, self.ast@.exprs.len() as int),
                lined(self.ast@.lows, old(self).ast@.exprs.len() as int, arguments@),
                grammar::arguments(old(self).tokens@, old(self)@, Seq::empty())
                    == grammar::arguments(self.tokens@, self@, arguments@),
            decreases grammar::remaining(self.tokens@, self@),
        {
            let ghost before = self@;
            let ghost found = arguments@;
            let full = arguments.len() >= MAX_ARITY;
            if full {
                self.error_here(text("Can't have more than 255 arguments."));
            }
            let ghost start = self@;
            let argument = match self.expression() {
                Ok(e) => e,
                Err(_) => {
                    assert(grammar::arguments(self.tokens@, before, found) == fail::<Seq<usize>>(
                        self@,
                    ));
                    return Err(());
                },
            };
            if !full {
                arguments.push(argument);
            }
            proof {
                let lows = self.ast@.lows;
                let list = arguments@;
                assert forall|k: int| 0 <= k < list.len() implies (if k == 0 {
                    old(self).ast@.exprs.len() as int
                } else {
                    list[k - 1] + 1
                }) <= lows[#[trigger] list[k] as int] by {
                    if k < found.len() {
                        assert(list[k] == found[k]);
                        assert(lows[found[k] as int] == before.ast.lows[found[k] as int]);
                        if k > 0 {
                            assert(list[k - 1] == found[k - 1]);
                        }
                    } else if k > 0 {
                        assert(list[k - 1] == found[k - 1]);
                        assert(found[k - 1] < before.ast.exprs.len());
                    }
                }
            }
            let ghost read = self@;
            if !self.match_token(TokenType::COMMA) {
                assert(grammar::arguments(self.tokens@, before, found) == done(self@, arguments@));
                return Ok(arguments);
            }
            assert(grammar::arguments(self.tokens@, before, found) == grammar::arguments(
                self.tokens@,
                self@,
                arguments@,
            ));
        }
    }

    fn finish_call(&mut self, callee: usize) -> (r: Result<usize, ()>)
        requires
            old(self).wf(),
            callee < old(self).ast@.exprs.len(),
        ensures
            final(self).wf(),
            final(self).continues(old(self)),
            r matches Ok(e) ==> final(self).ast@.lows[e as int] == old(self).ast@.lows[callee as int],
            outcome(final(self)@, r) == grammar::finish_call(
                old(self).tokens@,
                old(self)@,
                callee,
            ),
            r is Ok ==> final(self).current > old(self).current && r->Ok_0 < final(self).ast@.exprs.len(),
        decreases grammar::remaining(old(self).tokens@, old(self)@), 136int,
    {
        let arguments = if !self.check(TokenType::RIGHT_PAREN) {
            match self.arguments() {
                Ok(list) => list,
                Err(_) => {
                    return Err(());
                },
            }
        } else {
            Vec::new()
        };
        let paren = match self.consume(TokenType::RIGHT_PAREN, text("Expect ')' after arguments.")) {
            Ok(token) => token,
            Err(_) => {
                return Err(());
            },
        };
        let id = self.add_expr(Expr::Call { callee, paren, arguments });
        Ok(id)
    }

    fn primary(&mut self) -> (r: Result<usize, ()>)
        requires
            old(self).wf(),
        ensures
            final(self).wf(),
            final(self).continues(old(self)),
            r matches Ok(e) ==> fresh_expr(old(self).ast@, final(self).ast@, e),
            outcome(final(self)@, r) == grammar::primary(old(self).tokens@, old(self)@),
            r is Ok ==> final(self).current > old(self).current && r->Ok_0 < final(self).ast@.exprs.len(),
        decreases grammar::remaining(old(self).tokens@, old(self)@), 0int,
    {
        if self.match_token(TokenType::FALSE) {
            let id = self.add_expr(Expr::Literal { value: Literal::Boolean(false) });
            return Ok(id);
        }
        if self.match_token(TokenType::TRUE) {
            let id = self.add_expr(Expr::Literal { value: Literal::Boolean(true) });
            return Ok(id);
        }
        if self.match_token(TokenType::NIL) {
            let id = self.add_expr(Expr::Literal { value: Literal::Nil });
            return Ok(id);
        }
        let kind = self.peek_kind();
        if kind == TokenType::NUMBER || kind == TokenType::STRING {
            let value = self.tokens[self.current].literal.clone();
            self.advance();
            let id = self.add_expr(Expr::Literal { value });
            return Ok(id);
        }
        if kind == TokenType::IDENTIFIER {
            let name = self.peek();
            self.advance();
            let id = self.add_expr(Expr::Variable { name });
            return Ok(id);
        }
        if self.match_token(TokenType::LEFT_PAREN) {
            let expression = match self.expression() {
                Ok(e) => e,
                Err(_) => {
                    return Err(());
                },
            };
            match self.consume(TokenType::RIGHT_PAREN, text("Expect ')' after expression")) {
                Ok(_) => {},
                Err(_) => {
                    return Err(());
                },
            }
            let id = self.add_expr(Expr::Grouping { expression });
            return Ok(id);
        }
        self.error_here(text("Expect Expression"));
        Err(())
    }
}

} // verus!
