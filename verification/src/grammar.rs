//! The grammar of the language, as functions on a token sequence.
//!
//! Each production takes the tokens and the state of a parse (the position,
//! the nodes made so far, the diagnostics given) and returns the state after
//! it, with the node it made or with nothing if the tokens do not fit.
//! The parser's methods are verified against these functions.
//!
//! ```text
//! program      := declaration* EOF
//! declaration  := varDecl | funDecl | statement
//! varDecl      := "var" IDENT ("=" expression)? ";"
//! funDecl      := "fun" function
//! function     := IDENT "(" params? ")" block
//! statement    := exprStmt | printStmt | block | ifStmt | whileStmt
//!               | forStmt | returnStmt
//! expression   := assignment
//! assignment   := (IDENT "=" assignment) | logic_or
//! logic_or     := logic_and ("or" logic_and)*
//! logic_and    := equality  ("and" equality)*
//! equality     := comparison (("==" | "!=") comparison)*
//! comparison   := term (("<" | "<=" | ">" | ">=") term)*
//! term         := factor (("+" | "-") factor)*
//! factor       := unary (("*" | "/") unary)*
//! unary        := ("!" | "-") unary | call
//! call         := primary ("(" arguments? ")")*
//! primary      := "true" | "false" | "nil" | NUMBER | STRING
//!               | IDENT | "(" expression ")"
//! ```

use vstd::prelude::*;

use crate::ast::AstView;
use crate::expr::{ExprView, MAX_ARITY};
use crate::report_text;
use crate::stmt::StmtView;
use crate::token::{Literal, Token, TokenType};
use crate::token_location;

verus! {

/// The state of a parse.
pub struct Parsing {
    /// The index of the next token.
    pub current: nat,
    /// The nodes made so far.
    pub ast: AstView,
    /// The diagnostics given so far.
    pub diagnostics: Seq<Seq<char>>,
    /// A diagnostic was given.
    pub had_error: bool,
}

/// The outcome of a production: the state after it and what it made, if the
/// tokens fitted.
pub struct Parsed<T> {
    pub state: Parsing,
    pub result: Option<T>,
}

/// The levels of the binary operators, from the one that binds tightest.
pub const FACTOR: u8 = 1;

/// The level of `+` and `-`.
pub const TERM: u8 = 2;

/// The level of `<`, `<=`, `>` and `>=`.
pub const COMPARISON: u8 = 3;

/// The level of `==` and `!=`.
pub const EQUALITY: u8 = 4;

/// The level of `and`.
pub const AND: u8 = 5;

/// The level of `or`, which binds loosest.
pub const OR: u8 = 6;

/// The outcome of a production that the tokens do not fit.
pub open spec fn fail<T>(state: Parsing) -> Parsed<T> {
    Parsed { state, result: None }
}

/// The outcome of a production that made `value`.
pub open spec fn done<T>(state: Parsing, value: T) -> Parsed<T> {
    Parsed { state, result: Some(value) }
}

/// The number of tokens from the position of `s` on.
pub open spec fn remaining(tokens: Seq<Token>, s: Parsing) -> nat {
    if s.current < tokens.len() {
        (tokens.len() - s.current) as nat
    } else {
        0
    }
}

/// The kind of the next token. The last token counts as the end of the
/// input whatever its kind.
pub open spec fn kind_at(tokens: Seq<Token>, s: Parsing) -> TokenType {
    if s.current + 1 < tokens.len() {
        tokens[s.current as int].kind
    } else {
        TokenType::EOF
    }
}

/// The state after stepping over the next token; at the end of the input
/// there is no step.
pub open spec fn advanced(tokens: Seq<Token>, s: Parsing) -> Parsing {
    if kind_at(tokens, s) == TokenType::EOF {
        s
    } else {
        Parsing { current: s.current + 1, ..s }
    }
}

/// The state after a diagnostic at `token`.
pub open spec fn reported_at(s: Parsing, token: Token, message: Seq<char>) -> Parsing {
    Parsing {
        diagnostics: s.diagnostics.push(
            report_text(token.line, token_location(token@), message),
        ),
        had_error: true,
        ..s
    }
}

/// The state after a diagnostic at the next token.
pub open spec fn reported(tokens: Seq<Token>, s: Parsing, message: Seq<char>) -> Parsing {
    reported_at(s, tokens[s.current as int], message)
}

/// The state with one more expression, and that expression's index.
pub open spec fn new_expr(s: Parsing, e: ExprView) -> Parsed<usize> {
    done(Parsing { ast: s.ast.with_expr(e), ..s }, s.ast.exprs.len() as usize)
}

/// The state with one more statement, and that statement's index.
pub open spec fn new_stmt(s: Parsing, e: StmtView) -> Parsed<usize> {
    done(Parsing { ast: s.ast.with_stmt(e), ..s }, s.ast.stmts.len() as usize)
}

/// The outcome `p` of a production that started in `s`, as far as it did
/// not go back in the input.
pub open spec fn after<T>(s: Parsing, p: Parsed<T>) -> Parsed<T> {
    if p.state.current >= s.current {
        p
    } else {
        fail(s)
    }
}

/// The outcome `p` of a production that started in `s`: a result counts
/// only if the production went forward in the input.
pub open spec fn forward<T>(s: Parsing, p: Parsed<T>) -> Parsed<T> {
    if p.result is None || p.state.current > s.current {
        p
    } else {
        fail(p.state)
    }
}

/// Takes the next token if it is of kind `kind`; gives the diagnostic
/// `message` at it if it is not.
pub open spec fn consume(tokens: Seq<Token>, s: Parsing, kind: TokenType, message: Seq<char>)
    -> Parsed<Token> {
    if kind != TokenType::EOF && kind_at(tokens, s) == kind {
        done(advanced(tokens, s), tokens[s.current as int])
    } else {
        fail(reported(tokens, s, message))
    }
}

/// `kind` is an operator of the level `level`.
pub open spec fn operator_of(level: u8, kind: TokenType) -> bool {
    if level == FACTOR {
        kind == TokenType::SLASH || kind == TokenType::STAR
    } else if level == TERM {
        kind == TokenType::MINUS || kind == TokenType::PLUS
    } else if level == COMPARISON {
        kind == TokenType::GREATER || kind == TokenType::GREATER_EQUAL || kind == TokenType::LESS
            || kind == TokenType::LESS_EQUAL
    } else if level == EQUALITY {
        kind == TokenType::BANG_EQUAL || kind == TokenType::EQUAL_EQUAL
    } else if level == AND {
        kind == TokenType::AND
    } else if level == OR {
        kind == TokenType::OR
    } else {
        false
    }
}

/// The node for `left operator right` at the level `level`: a logical
/// expression for `and` and `or`, a binary expression below them.
pub open spec fn operation(level: u8, left: usize, operator: Token, right: usize) -> ExprView {
    if level >= AND {
        ExprView::Logical { left, operator, right }
    } else {
        ExprView::Binary { left, operator, right }
    }
}

/// `primary := "true" | "false" | "nil" | NUMBER | STRING | IDENT | "(" expression ")"`
pub open spec fn primary(tokens: Seq<Token>, s: Parsing) -> Parsed<usize>
    decreases remaining(tokens, s), 0int,
{
    let kind = kind_at(tokens, s);
    let token = tokens[s.current as int];
    let next = advanced(tokens, s);
    if kind == TokenType::FALSE {
        new_expr(next, ExprView::Literal { value: Literal::Boolean(false) })
    } else if kind == TokenType::TRUE {
        new_expr(next, ExprView::Literal { value: Literal::Boolean(true) })
    } else if kind == TokenType::NIL {
        new_expr(next, ExprView::Literal { value: Literal::Nil })
    } else if kind == TokenType::NUMBER || kind == TokenType::STRING {
        new_expr(next, ExprView::Literal { value: token.literal })
    } else if kind == TokenType::IDENTIFIER {
        new_expr(next, ExprView::Variable { name: token })
    } else if kind == TokenType::LEFT_PAREN {
        let inner = after(next, expression(tokens, next));
        if inner.result is None {
            fail(inner.state)
        } else {
            let close = consume(
                tokens,
                inner.state,
                TokenType::RIGHT_PAREN,
                "Expect ')' after expression"@,
            );
            if close.result is None {
                fail(close.state)
            } else {
                new_expr(close.state, ExprView::Grouping { expression: inner.result->0 })
            }
        }
    } else {
        fail(reported(tokens, s, "Expect Expression"@))
    }
}

/// The arguments of a call, after those in `found`: expressions with commas
/// between them. Past [`MAX_ARITY`] of them, each gets a diagnostic and is
/// left out.
pub open spec fn arguments(tokens: Seq<Token>, s: Parsing, found: Seq<usize>) -> Parsed<
    Seq<usize>,
>
    decreases remaining(tokens, s), 35int,
{
    let full = found.len() >= MAX_ARITY;
    let start = if full {
        reported(tokens, s, "Can't have more than 255 arguments."@)
    } else {
        s
    };
    let argument = forward(start, expression(tokens, start));
    if argument.result is None {
        fail(argument.state)
    } else {
        let found = if full {
            found
        } else {
            found.push(argument.result->0)
        };
        if kind_at(tokens, argument.state) == TokenType::COMMA {
            arguments(tokens, advanced(tokens, argument.state), found)
        } else {
            done(argument.state, found)
        }
    }
}

/// The rest of a call of `callee`, after its opening parenthesis.
pub open spec fn finish_call(tokens: Seq<Token>, s: Parsing, callee: usize) -> Parsed<usize>
    decreases remaining(tokens, s), 36int,
{
    let list = if kind_at(tokens, s) != TokenType::RIGHT_PAREN {
        after(s, arguments(tokens, s, Seq::empty()))
    } else {
        done(s, Seq::empty())
    };
    if list.result is None {
        fail(list.state)
    } else {
        let close = consume(
            tokens,
            list.state,
            TokenType::RIGHT_PAREN,
            "Expect ')' after arguments."@,
        );
        if close.result is None {
            fail(close.state)
        } else {
            new_expr(
                close.state,
                ExprView::Call { callee, paren: close.result->0, arguments: list.result->0 },
            )
        }
    }
}

/// The calls that follow the expression `callee`, each one calling the
/// result of the one before.
pub open spec fn calls(tokens: Seq<Token>, s: Parsing, callee: usize) -> Parsed<usize>
    decreases remaining(tokens, s), 1int,
{
    if kind_at(tokens, s) == TokenType::LEFT_PAREN {
        let next = advanced(tokens, s);
        let call = after(next, finish_call(tokens, next, callee));
        if call.result is None {
            fail(call.state)
        } else {
            calls(tokens, call.state, call.result->0)
        }
    } else {
        done(s, callee)
    }
}

/// `call := primary ("(" arguments? ")")*`
pub open spec fn call(tokens: Seq<Token>, s: Parsing) -> Parsed<usize>
    decreases remaining(tokens, s), 2int,
{
    let callee = after(s, primary(tokens, s));
    if callee.result is None {
        fail(callee.state)
    } else {
        calls(tokens, callee.state, callee.result->0)
    }
}

/// `unary := ("!" | "-") unary | call`
pub open spec fn unary(tokens: Seq<Token>, s: Parsing) -> Parsed<usize>
    decreases remaining(tokens, s), 3int,
{
    let kind = kind_at(tokens, s);
    if kind == TokenType::BANG || kind == TokenType::MINUS {
        let next = advanced(tokens, s);
        let right = after(next, unary(tokens, next));
        if right.result is None {
            fail(right.state)
        } else {
            new_expr(
                right.state,
                ExprView::Unary { operator: tokens[s.current as int], right: right.result->0 },
            )
        }
    } else {
        call(tokens, s)
    }
}

/// An operand of an operator of the level `level`: an expression of the
/// next level down, a unary expression below the lowest.
pub open spec fn operand(tokens: Seq<Token>, s: Parsing, level: u8) -> Parsed<usize>
    decreases remaining(tokens, s), 4 + 3 * level,
{
    if level <= FACTOR {
        unary(tokens, s)
    } else {
        binary(tokens, s, (level - 1) as u8)
    }
}

/// The operators of the level `level` that follow the expression `left`,
/// each with its right operand; they group to the left.
pub open spec fn operations(tokens: Seq<Token>, s: Parsing, level: u8, left: usize) -> Parsed<
    usize,
>
    decreases remaining(tokens, s), 5 + 3 * level,
{
    if operator_of(level, kind_at(tokens, s)) {
        let next = advanced(tokens, s);
        let right = after(next, operand(tokens, next, level));
        if right.result is None {
            fail(right.state)
        } else {
            let node = new_expr(
                right.state,
                operation(level, left, tokens[s.current as int], right.result->0),
            );
            operations(tokens, node.state, level, node.result->0)
        }
    } else {
        done(s, left)
    }
}

/// A chain of operands joined by operators of the level `level`.
pub open spec fn binary(tokens: Seq<Token>, s: Parsing, level: u8) -> Parsed<usize>
    decreases remaining(tokens, s), 6 + 3 * level,
{
    let left = after(s, operand(tokens, s, level));
    if left.result is None {
        fail(left.state)
    } else {
        operations(tokens, left.state, level, left.result->0)
    }
}

/// `assignment := (IDENT "=" assignment) | logic_or`
///
/// The left side is read as an expression first. One that is no variable
/// gets a diagnostic at the `=` and stays the result.
pub open spec fn assignment(tokens: Seq<Token>, s: Parsing) -> Parsed<usize>
    decreases remaining(tokens, s), 30int,
{
    let target = after(s, binary(tokens, s, OR));
    if target.result is None {
        fail(target.state)
    } else if kind_at(tokens, target.state) == TokenType::EQUAL {
        let equals = tokens[target.state.current as int];
        let next = advanced(tokens, target.state);
        let value = after(next, assignment(tokens, next));
        if value.result is None {
            fail(value.state)
        } else {
            match value.state.ast.exprs[target.result->0 as int] {
                ExprView::Variable { name } => new_expr(
                    value.state,
                    ExprView::Assign { name, value: value.result->0 },
                ),
                _ => done(
                    reported_at(value.state, equals, "Invalid assignment target."@),
                    target.result->0,
                ),
            }
        }
    } else {
        target
    }
}

/// `expression := assignment`
pub open spec fn expression(tokens: Seq<Token>, s: Parsing) -> Parsed<usize>
    decreases remaining(tokens, s), 31int,
{
    assignment(tokens, s)
}

/// An expression and the semicolon that ends a statement.
pub open spec fn terminated(tokens: Seq<Token>, s: Parsing) -> Parsed<usize>
    decreases remaining(tokens, s), 32int,
{
    let value = after(s, expression(tokens, s));
    if value.result is None {
        fail(value.state)
    } else {
        let end = consume(tokens, value.state, TokenType::SEMICOLON, "Expect ';' after value"@);
        if end.result is None {
            fail(end.state)
        } else {
            done(end.state, value.result->0)
        }
    }
}

/// `printStmt := "print" expression ";"`, after the keyword.
pub open spec fn print_statement(tokens: Seq<Token>, s: Parsing) -> Parsed<usize>
    decreases remaining(tokens, s), 33int,
{
    let value = terminated(tokens, s);
    if value.result is None {
        fail(value.state)
    } else {
        new_stmt(value.state, StmtView::Print { expression: value.result->0 })
    }
}

/// `exprStmt := expression ";"`
pub open spec fn expression_statement(tokens: Seq<Token>, s: Parsing) -> Parsed<usize>
    decreases remaining(tokens, s), 33int,
{
    let value = terminated(tokens, s);
    if value.result is None {
        fail(value.state)
    } else {
        new_stmt(value.state, StmtView::Expression { expression: value.result->0 })
    }
}

/// `returnStmt := "return" expression? ";"`, after the keyword. Without an
/// expression the value is the literal `nil`.
pub open spec fn return_statement(tokens: Seq<Token>, s: Parsing) -> Parsed<usize>
    decreases remaining(tokens, s), 33int,
{
    let keyword = tokens[s.current - 1];
    let value = if kind_at(tokens, s) != TokenType::SEMICOLON {
        after(s, expression(tokens, s))
    } else {
        new_expr(s, ExprView::Literal { value: Literal::Nil })
    };
    if value.result is None {
        fail(value.state)
    } else {
        let end = consume(
            tokens,
            value.state,
            TokenType::SEMICOLON,
            "Expect ';' after return value."@,
        );
        if end.result is None {
            fail(end.state)
        } else {
            new_stmt(end.state, StmtView::Return { keyword, value: value.result->0 })
        }
    }
}

/// `varDecl := "var" IDENT ("=" expression)? ";"`, after the keyword.
/// Without an initializer the variable starts as the literal `nil`.
pub open spec fn var_declaration(tokens: Seq<Token>, s: Parsing) -> Parsed<usize>
    decreases remaining(tokens, s), 33int,
{
    let name = consume(tokens, s, TokenType::IDENTIFIER, "Expect variable name."@);
    if name.result is None {
        fail(name.state)
    } else {
        let initializer = if kind_at(tokens, name.state) == TokenType::EQUAL {
            let next = advanced(tokens, name.state);
            after(next, expression(tokens, next))
        } else {
            new_expr(name.state, ExprView::Literal { value: Literal::Nil })
        };
        if initializer.result is None {
            fail(initializer.state)
        } else {
            let end = consume(
                tokens,
                initializer.state,
                TokenType::SEMICOLON,
                "Expect ';' after variable declaration."@,
            );
            if end.result is None {
                fail(end.state)
            } else {
                new_stmt(
                    end.state,
                    StmtView::Var { name: name.result->0, initializer: initializer.result->0 },
                )
            }
        }
    }
}

/// A condition in parentheses, as `if` and `while` have it; `before` and
/// `behind` are the diagnostics for a missing parenthesis before and behind
/// it.
pub open spec fn condition(
    tokens: Seq<Token>,
    s: Parsing,
    before: Seq<char>,
    behind: Seq<char>,
) -> Parsed<usize>
    decreases remaining(tokens, s), 32int,
{
    let open = consume(tokens, s, TokenType::LEFT_PAREN, before);
    if open.result is None {
        fail(open.state)
    } else {
        let value = after(open.state, expression(tokens, open.state));
        if value.result is None {
            fail(value.state)
        } else {
            let close = consume(tokens, value.state, TokenType::RIGHT_PAREN, behind);
            if close.result is None {
                fail(close.state)
            } else {
                done(close.state, value.result->0)
            }
        }
    }
}

/// `whileStmt := "while" "(" expression ")" statement`, after the keyword.
pub open spec fn while_statement(tokens: Seq<Token>, s: Parsing) -> Parsed<usize>
    decreases remaining(tokens, s), 41int,
{
    let test = after(
        s,
        condition(tokens, s, "Expect '(' after 'while'."@, "Expect ')' after condition."@),
    );
    if test.result is None {
        fail(test.state)
    } else {
        let body = after(test.state, statement(tokens, test.state));
        if body.result is None {
            fail(body.state)
        } else {
            new_stmt(
                body.state,
                StmtView::While { condition: test.result->0, body: body.result->0 },
            )
        }
    }
}

/// `ifStmt := "if" "(" expression ")" statement ("else" statement)?`, after
/// the keyword.
pub open spec fn if_statement(tokens: Seq<Token>, s: Parsing) -> Parsed<usize>
    decreases remaining(tokens, s), 41int,
{
    let test = after(
        s,
        condition(tokens, s, "Expect '(' after 'if'."@, "Expect ')' after if condition."@),
    );
    if test.result is None {
        fail(test.state)
    } else {
        let then_branch = after(test.state, statement(tokens, test.state));
        if then_branch.result is None {
            fail(then_branch.state)
        } else if kind_at(tokens, then_branch.state) == TokenType::ELSE {
            let next = advanced(tokens, then_branch.state);
            let else_branch = after(next, statement(tokens, next));
            if else_branch.result is None {
                fail(else_branch.state)
            } else {
                new_stmt(
                    else_branch.state,
                    StmtView::If {
                        condition: test.result->0,
                        then_branch: then_branch.result->0,
                        else_branch: Some(else_branch.result->0),
                    },
                )
            }
        } else {
            new_stmt(
                then_branch.state,
                StmtView::If {
                    condition: test.result->0,
                    then_branch: then_branch.result->0,
                    else_branch: None,
                },
            )
        }
    }
}

/// The first clause of a `for`: a variable declaration, an expression
/// statement, or nothing but the semicolon.
pub open spec fn for_initializer(tokens: Seq<Token>, s: Parsing) -> Parsed<Option<usize>>
    decreases remaining(tokens, s), 34int,
{
    let kind = kind_at(tokens, s);
    if kind == TokenType::SEMICOLON {
        done(advanced(tokens, s), None)
    } else {
        let next = advanced(tokens, s);
        let first = if kind == TokenType::VAR {
            after(next, var_declaration(tokens, next))
        } else {
            after(s, expression_statement(tokens, s))
        };
        if first.result is None {
            fail(first.state)
        } else {
            done(first.state, Some(first.result->0))
        }
    }
}

/// A clause of a `for` that may be empty: an expression unless the token
/// that ends the clause comes at once, then that token.
pub open spec fn for_clause(
    tokens: Seq<Token>,
    s: Parsing,
    end: TokenType,
    message: Seq<char>,
) -> Parsed<Option<usize>>
    decreases remaining(tokens, s), 32int,
{
    let value = if kind_at(tokens, s) != end {
        let e = after(s, expression(tokens, s));
        Parsed { state: e.state, result: if e.result is None { None } else { Some(e.result) } }
    } else {
        done(s, None)
    };
    if value.result is None {
        fail(value.state)
    } else {
        let close = consume(tokens, value.state, end, message);
        if close.result is None {
            fail(close.state)
        } else {
            done(close.state, value.result->0)
        }
    }
}

/// The loop that a `for` with the given clauses and body stands for:
///
/// ```text
/// { initializer; while (condition) { body; increment; } }
/// ```
///
/// A missing condition is the literal `true`; without an increment the
/// inner block holds the body alone, and without an initializer the loop
/// stands alone.
pub open spec fn for_loop(
    s: Parsing,
    initializer: Option<usize>,
    test: Option<usize>,
    increment: Option<usize>,
    body: usize,
) -> Parsed<usize> {
    let stepped = match increment {
        Some(e) => {
            let step = new_stmt(s, StmtView::Expression { expression: e });
            new_stmt(step.state, StmtView::Block { statements: seq![body, step.result->0] })
        },
        None => new_stmt(s, StmtView::Block { statements: seq![body] }),
    };
    let guard = match test {
        Some(e) => done(stepped.state, e),
        None => new_expr(stepped.state, ExprView::Literal { value: Literal::Boolean(true) }),
    };
    let repeated = new_stmt(
        guard.state,
        StmtView::While { condition: guard.result->0, body: stepped.result->0 },
    );
    match initializer {
        Some(first) => new_stmt(
            repeated.state,
            StmtView::Block { statements: seq![first, repeated.result->0] },
        ),
        None => repeated,
    }
}

/// What a `for` stands for: a `while` whose body is a block of the body
/// of the `for` and, if there is one, the increment, and whose condition
/// is that of the `for`, or the literal `true` if it has none. With an
/// initializer the `while` is the second statement of a block behind the
/// initializer; without one it stands alone.
pub proof fn lemma_for_loop_shape(
    s: Parsing,
    initializer: Option<usize>,
    test: Option<usize>,
    increment: Option<usize>,
    body: usize,
)
    requires
        s.ast.stmts.len() + 4 <= usize::MAX,
        s.ast.exprs.len() < usize::MAX,
    ensures
        ({
            let r = for_loop(s, initializer, test, increment, body);
            let ast = r.state.ast;
            let whole = r.result->0 as int;
            let repeated = match initializer {
                Some(first) => whole - 1,
                None => whole,
            };
            &&& r.result is Some
            &&& s.ast.stmts.len() <= repeated <= whole < ast.stmts.len()
            &&& initializer matches Some(first) ==> ast.stmts[whole] == (StmtView::Block {
                statements: seq![first, repeated as usize],
            })
            &&& ast.stmts[repeated] matches StmtView::While { condition, body: inner } && {
                &&& match test {
                    Some(e) => condition == e,
                    None => condition == s.ast.exprs.len() && ast.exprs[condition as int] == (
                    ExprView::Literal { value: Literal::Boolean(true) }),
                }
                &&& s.ast.stmts.len() <= inner < repeated
                &&& match increment {
                    Some(e) => ast.stmts[inner as int] == (StmtView::Block {
                        statements: seq![body, (inner - 1) as usize],
                    }) && ast.stmts[inner - 1] == (StmtView::Expression { expression: e }),
                    None => ast.stmts[inner as int] == (StmtView::Block { statements: seq![body] }),
                }
            }
        }),
{
}

/// `forStmt := "for" "(" (varDecl | exprStmt | ";") expression? ";" expression? ")" statement`,
/// after the keyword.
pub open spec fn for_statement(tokens: Seq<Token>, s: Parsing) -> Parsed<usize>
    decreases remaining(tokens, s), 41int,
{
    let open = consume(tokens, s, TokenType::LEFT_PAREN, "Expect '(' after 'for'."@);
    if open.result is None {
        fail(open.state)
    } else {
        let initializer = after(open.state, for_initializer(tokens, open.state));
        if initializer.result is None {
            fail(initializer.state)
        } else {
            let test = after(
                initializer.state,
                for_clause(
                    tokens,
                    initializer.state,
                    TokenType::SEMICOLON,
                    "Expect ';' after loop condition."@,
                ),
            );
            if test.result is None {
                fail(test.state)
            } else {
                let increment = after(
                    test.state,
                    for_clause(
                        tokens,
                        test.state,
                        TokenType::RIGHT_PAREN,
                        "Expect ')' after for clause."@,
                    ),
                );
                if increment.result is None {
                    fail(increment.state)
                } else {
                    let body = after(increment.state, statement(tokens, increment.state));
                    if body.result is None {
                        fail(body.state)
                    } else {
                        for_loop(
                            body.state,
                            initializer.result->0,
                            test.result->0,
                            increment.result->0,
                            body.result->0,
                        )
                    }
                }
            }
        }
    }
}

/// The declarations of a block, after those in `found`, up to the closing
/// brace or the end of the input.
pub open spec fn declarations(tokens: Seq<Token>, s: Parsing, found: Seq<usize>) -> Parsed<
    Seq<usize>,
>
    decreases remaining(tokens, s), 51int,
{
    let kind = kind_at(tokens, s);
    if kind != TokenType::RIGHT_BRACE && kind != TokenType::EOF {
        let next = forward(s, declaration(tokens, s));
        if next.result is None {
            fail(next.state)
        } else {
            declarations(tokens, next.state, found.push(next.result->0))
        }
    } else {
        done(s, found)
    }
}

/// `block := "{" declaration* "}"`, after the opening brace.
pub open spec fn block(tokens: Seq<Token>, s: Parsing) -> Parsed<Seq<usize>>
    decreases remaining(tokens, s), 52int,
{
    let list = after(s, declarations(tokens, s, Seq::empty()));
    if list.result is None {
        fail(list.state)
    } else {
        let close = consume(tokens, list.state, TokenType::RIGHT_BRACE, "Expect '}' after block."@);
        if close.result is None {
            fail(close.state)
        } else {
            done(close.state, list.result->0)
        }
    }
}

/// A block as a statement, after its opening brace.
pub open spec fn braced(tokens: Seq<Token>, s: Parsing) -> Parsed<usize>
    decreases remaining(tokens, s), 53int,
{
    let list = block(tokens, s);
    if list.result is None {
        fail(list.state)
    } else {
        new_stmt(list.state, StmtView::Block { statements: list.result->0 })
    }
}

/// `statement := exprStmt | printStmt | block | ifStmt | whileStmt | forStmt | returnStmt`
pub open spec fn statement(tokens: Seq<Token>, s: Parsing) -> Parsed<usize>
    decreases remaining(tokens, s), 40int,
{
    let kind = kind_at(tokens, s);
    let next = advanced(tokens, s);
    if kind == TokenType::FOR {
        for_statement(tokens, next)
    } else if kind == TokenType::IF {
        if_statement(tokens, next)
    } else if kind == TokenType::PRINT {
        print_statement(tokens, next)
    } else if kind == TokenType::RETURN {
        return_statement(tokens, next)
    } else if kind == TokenType::WHILE {
        while_statement(tokens, next)
    } else if kind == TokenType::LEFT_BRACE {
        braced(tokens, next)
    } else {
        expression_statement(tokens, s)
    }
}

/// The parameters of a function, after those in `found`: names with commas
/// between them. Past [`MAX_ARITY`] of them, each gets a diagnostic and is
/// left out.
pub open spec fn parameters(tokens: Seq<Token>, s: Parsing, found: Seq<Token>) -> Parsed<
    Seq<Token>,
>
    decreases remaining(tokens, s),
{
    let full = found.len() >= MAX_ARITY;
    let start = if full {
        reported(tokens, s, "Can't have more than 255 parameters."@)
    } else {
        s
    };
    let name = consume(tokens, start, TokenType::IDENTIFIER, "Expect parameter name."@);
    if name.result is None {
        fail(name.state)
    } else {
        let found = if full {
            found
        } else {
            found.push(name.result->0)
        };
        if kind_at(tokens, name.state) == TokenType::COMMA {
            parameters(tokens, advanced(tokens, name.state), found)
        } else {
            done(name.state, found)
        }
    }
}

/// The name and the parameter list of a function, up to the brace that
/// opens its body; `kind` says in the diagnostics what is declared.
pub open spec fn signature(tokens: Seq<Token>, s: Parsing, kind: Seq<char>) -> Parsed<
    (Token, Seq<Token>),
> {
    let name = consume(tokens, s, TokenType::IDENTIFIER, "Expect "@ + kind + " name."@);
    if name.result is None {
        fail(name.state)
    } else {
        let open = consume(
            tokens,
            name.state,
            TokenType::LEFT_PAREN,
            "Expect '(' after "@ + kind + " name."@,
        );
        if open.result is None {
            fail(open.state)
        } else {
            let list = if kind_at(tokens, open.state) != TokenType::RIGHT_PAREN {
                parameters(tokens, open.state, Seq::empty())
            } else {
                done(open.state, Seq::empty())
            };
            if list.result is None {
                fail(list.state)
            } else {
                let close = consume(
                    tokens,
                    list.state,
                    TokenType::RIGHT_PAREN,
                    "Expect ')' after parameters."@,
                );
                if close.result is None {
                    fail(close.state)
                } else {
                    let brace = consume(
                        tokens,
                        close.state,
                        TokenType::LEFT_BRACE,
                        "Expect '{' before "@ + kind + " body."@,
                    );
                    if brace.result is None {
                        fail(brace.state)
                    } else {
                        done(brace.state, (name.result->0, list.result->0))
                    }
                }
            }
        }
    }
}

/// `function := IDENT "(" params? ")" block`
pub open spec fn function(tokens: Seq<Token>, s: Parsing, kind: Seq<char>) -> Parsed<usize>
    decreases remaining(tokens, s), 53int,
{
    let head = after(s, signature(tokens, s, kind));
    if head.result is None {
        fail(head.state)
    } else {
        let body = block(tokens, head.state);
        if body.result is None {
            fail(body.state)
        } else {
            new_stmt(
                body.state,
                StmtView::Function {
                    name: (head.result->0).0,
                    params: (head.result->0).1,
                    body: body.result->0,
                },
            )
        }
    }
}

/// The next token starts a statement.
pub open spec fn starts_statement(kind: TokenType) -> bool {
    kind == TokenType::CLASS || kind == TokenType::FUN || kind == TokenType::VAR || kind
        == TokenType::FOR || kind == TokenType::IF || kind == TokenType::WHILE || kind
        == TokenType::PRINT || kind == TokenType::RETURN
}

/// Steps over tokens until the last one taken was a semicolon, or the
/// next one starts a statement, or the input ends.
#[verifier::opaque]
pub open spec fn resumed(tokens: Seq<Token>, s: Parsing) -> Parsing
    decreases remaining(tokens, s),
{
    let kind = kind_at(tokens, s);
    if kind == TokenType::EOF {
        s
    } else if s.current > 0 && tokens[s.current - 1].kind == TokenType::SEMICOLON {
        s
    } else if starts_statement(kind) {
        s
    } else {
        resumed(tokens, advanced(tokens, s))
    }
}

/// The state after recovery from an error: one token is given up, then
/// more up to a place where a statement may start.
pub open spec fn synchronized(tokens: Seq<Token>, s: Parsing) -> Parsing {
    resumed(tokens, advanced(tokens, s))
}

/// The statement that stands for a declaration that could not be read: the
/// expression statement `nil;`.
pub open spec fn placeholder(s: Parsing) -> Parsed<usize> {
    let value = new_expr(s, ExprView::Literal { value: Literal::Nil });
    new_stmt(value.state, StmtView::Expression { expression: value.result->0 })
}

/// A declaration as it stands, without recovery.
pub open spec fn declared(tokens: Seq<Token>, s: Parsing) -> Parsed<usize>
    decreases remaining(tokens, s), 49int,
{
    let kind = kind_at(tokens, s);
    let next = advanced(tokens, s);
    if kind == TokenType::VAR {
        var_declaration(tokens, next)
    } else if kind == TokenType::FUN {
        function(tokens, next, "function"@)
    } else {
        statement(tokens, s)
    }
}

/// `declaration := varDecl | funDecl | statement`
///
/// Where the tokens do not fit, the parse recovers and a placeholder is the
/// result.
pub open spec fn declaration(tokens: Seq<Token>, s: Parsing) -> Parsed<usize>
    decreases remaining(tokens, s), 50int,
{
    let read = declared(tokens, s);
    if read.result is None {
        placeholder(Parsing { had_error: true, ..synchronized(tokens, read.state) })
    } else {
        read
    }
}

/// The declarations of a program, after those in `found`, up to the end of
/// the input.
pub open spec fn program(tokens: Seq<Token>, s: Parsing, found: Seq<usize>) -> Parsed<
    Seq<usize>,
>
    decreases remaining(tokens, s),
{
    if kind_at(tokens, s) != TokenType::EOF {
        let next = forward(s, declaration(tokens, s));
        if next.result is None {
            fail(next.state)
        } else {
            program(tokens, next.state, found.push(next.result->0))
        }
    } else {
        done(s, found)
    }
}

/// `program := declaration* EOF`: the statements of the program, or
/// nothing if a diagnostic was given.
pub open spec fn parse(tokens: Seq<Token>, s: Parsing) -> Parsed<Seq<usize>> {
    let all = program(tokens, s, Seq::empty());
    if all.state.had_error {
        fail(all.state)
    } else {
        all
    }
}

} // verus!
