//! A tree-walking interpreter for Lox: scanner, parser, resolver and an
//! evaluator that the host drives step by step.

use std::collections::HashMap;
use vstd::prelude::*;
use vstd::string::*;

pub mod ast;
pub mod bindings;
pub mod environment;
pub mod expr;
pub mod grammar;
pub mod interpreter;
pub mod machine_safety;
pub mod lox_callable;
pub mod lox_function;
pub mod lox_type;
pub mod machine;
pub mod native_function;
pub mod once;
pub mod parser;
pub mod resolution;
pub mod resolver;
pub mod safety;
pub mod scanner;
pub mod soundness;
pub mod stmt;
pub mod text;
pub mod token;

use crate::ast::{lemma_fold_bounds, Ast, AstView};
use crate::expr::all_below;
use crate::grammar::Parsing;
use crate::interpreter::{Action, Event, Interpreter};
use crate::machine::{ActionView, Machine};
use crate::machine_safety::sound;
use crate::parser::{fresh_list, fresh_stmt, Parser};
use crate::resolution::Resolving;
use crate::resolver::Resolver;
use crate::scanner::{scan, texts_view, tokens_view, Scanner};
use crate::text::{decimal, decimal_text, text};
use crate::token::{Token, TokenType, TokenView};

verus! {

/// The text of a diagnostic: `[line L] Error LOC : MESSAGE`.
pub open spec fn report_text(line: u32, location: Seq<char>, message: Seq<char>) -> Seq<char> {
    "[line "@ + decimal(line as nat) + "] Error "@ + location + " : "@ + message
}

/// Where a token stands, as a diagnostic names it: ` at end` for the end of
/// the input, ` at 'LEXEME'` for any other token.
pub open spec fn token_location(token: TokenView) -> Seq<char> {
    if token.kind == TokenType::EOF {
        " at end"@
    } else {
        " at '"@ + token.lexeme + "'"@
    }
}

/// The diagnostic for an error that is known by its line only.
pub fn error(line: u32, message: &String) -> (r: String)
    ensures
        r@ == report_text(line, Seq::empty(), message@),
{
    let location = String::new();
    report(line, &location, message)
}

/// The diagnostic for an error at a token.
pub fn error_token(token: &Token, message: String) -> (r: String)
    ensures
        r@ == report_text(token.line, token_location(token@), message@),
{
    let location = locate(token);
    report(token.line, &location, &message)
}

/// The location text of a token.
pub fn locate(token: &Token) -> (r: String)
    ensures
        r@ == token_location(token@),
{
    if token.kind == TokenType::EOF {
        text(" at end")
    } else {
        let mut location = text(" at '");
        location.append(token.lexeme.as_str());
        location.append("'");
        location
    }
}

/// Puts a diagnostic together from its line, location and message.
pub fn report(line: u32, location: &String, message: &String) -> (r: String)
    ensures
        r@ == report_text(line, location@, message@),
{
    let mut out = text("[line ");
    let number = decimal_text(line as u64);
    out.append(number.as_str());
    out.append("] Error ");
    out.append(location.as_str());
    out.append(" : ");
    out.append(message.as_str());
    out
}

/// The exit code after a static error.
pub const EXIT_STATIC_ERROR: u8 = 65;

/// The exit code after a runtime error.
pub const EXIT_RUNTIME_ERROR: u8 = 70;

/// An interpreter with what the host needs around it: the flags that say
/// how a program went wrong, and the diagnostics not yet shown.
pub struct Lox {
    pub had_error: bool,
    pub had_runtime_error: bool,
    pub interpreter: Interpreter,
    /// The uses of variables that are resolved; an account kept beside
    /// the interpreter.
    pub seen: Ghost<Set<usize>>,
    /// The diagnostics given and not yet taken.
    pub diagnostics: Vec<String>,
}

/// The mathematical value of a [`Lox`].
pub struct LoxView {
    pub had_error: bool,
    pub had_runtime_error: bool,
    pub ast: AstView,
    pub machine: Machine,
    pub seen: Set<usize>,
    pub diagnostics: Seq<Seq<char>>,
}

impl View for Lox {
    type V = LoxView;

    open spec fn view(&self) -> LoxView {
        LoxView {
            had_error: self.had_error,
            had_runtime_error: self.had_runtime_error,
            ast: self.interpreter.ast@,
            machine: self.interpreter@,
            seen: self.seen@,
            diagnostics: texts_view(self.diagnostics@),
        }
    }
}

/// What becomes of `lox` when it has read a program with static errors:
/// the nodes `ast` are kept, the diagnostics `given` are added, nothing
/// runs.
pub open spec fn refused(lox: LoxView, ast: AstView, given: Seq<Seq<char>>) -> LoxView {
    LoxView {
        had_error: true,
        ast,
        machine: lox.machine.stopped(),
        diagnostics: lox.diagnostics + given,
        ..lox
    }
}

/// The state in which the resolution of a program starts: outside every
/// scope, with the distances and the account of the programs read before.
pub open spec fn outset(locals: Map<usize, usize>, seen: Set<usize>) -> Resolving {
    Resolving { scopes: Seq::empty(), locals, seen, twice: false, diagnostics: Seq::empty() }
}

/// If the program that scans to `tokens` parses, its resolution resolves
/// no use of a variable twice.
#[verifier::opaque]
pub open spec fn resolved_once(lox: LoxView, tokens: Seq<Token>) -> bool {
    let parsed = grammar::parse(
        tokens,
        Parsing { current: 0, ast: lox.ast, diagnostics: Seq::empty(), had_error: false },
    );
    parsed.result matches Some(statements) ==> !resolution::resolve_stmts(
        parsed.state.ast,
        statements,
        0,
        outset(lox.machine.locals, lox.seen),
    ).twice
}

/// What becomes of `lox` when it reads the program that scans to
/// `tokens` with the diagnostics `scanned`, and whether the program is set
/// to run.
///
/// The tokens are parsed, always, so that every syntax error is
/// reported. If the scan and the parse gave no diagnostic, the statements
/// are resolved. If that gave none either, they are the program to run.
///
/// The definition is long, so it is hidden from the verifier where it is
/// not asked for.
#[verifier::opaque]
pub open spec fn read(lox: LoxView, tokens: Seq<Token>, scanned: Seq<Seq<char>>) -> (LoxView, bool) {
    let parsed = grammar::parse(
        tokens,
        Parsing { current: 0, ast: lox.ast, diagnostics: Seq::empty(), had_error: false },
    );
    let ast = parsed.state.ast;
    if scanned.len() > 0 || parsed.result is None {
        (refused(lox, ast, scanned + parsed.state.diagnostics), false)
    } else {
        let statements = parsed.result->0;
        let resolved = resolution::resolve_stmts(
            ast,
            statements,
            0,
            outset(lox.machine.locals, lox.seen),
        );
        let known = LoxView {
            machine: Machine { locals: resolved.locals, ..lox.machine },
            seen: resolved.seen,
            ..lox
        };
        if resolved.diagnostics.len() > 0 {
            (refused(known, ast, resolved.diagnostics), false)
        } else {
            (
                LoxView {
                    ast,
                    machine: machine::loaded(known.machine.stopped(), statements),
                    ..known
                },
                true,
            )
        }
    }
}

/// A program that was just parsed is resolved with each use of a
/// variable resolved once: its expressions are new in the store, so none
/// of them was resolved before.
pub proof fn lemma_resolved_once(
    before: AstView,
    ast: AstView,
    program: Seq<usize>,
    s: Resolving,
)
    requires
        ast.wf(),
        all_below(program, ast.stmts.len() as int),
        fresh_list(before, ast, program),
        before.exprs.len() <= ast.exprs.len(),
        once::clear(s.seen, before.exprs.len() as int, usize::MAX + 1),
        !s.twice,
    ensures
        ({
            let r = resolution::resolve_stmts(ast, program, 0, s);
            &&& !r.twice
            &&& once::clear(r.seen, ast.exprs.len() as int, usize::MAX + 1)
        }),
{
    crate::ast::lemma_lens(ast);
    assert forall|k: int| 0 <= k < program.len() implies 0 <= ast.ranges[
        #[trigger] program[k] as int
    ].0 && ast.ranges[program[k] as int].1 <= ast.exprs.len() by {
        assert(fresh_stmt(before, ast, program[k]));
    }
    lemma_fold_bounds(ast.ranges, program, 0, 0, ast.exprs.len() as int);
    assert forall|k: int| 0 <= k < program.len() implies once::clear(
        s.seen,
        ast.ranges[#[trigger] program[k] as int].0 as int,
        ast.ranges[program[k] as int].1 as int,
    ) by {
        assert(fresh_stmt(before, ast, program[k]));
    }
    once::lemma_once_stmts(ast, program, 0, s);
}

impl Lox {
    /// The interpreter is well formed and sound, every use of a variable
    /// that has a distance is one that the resolver has resolved, and
    /// every use that it has resolved is an expression of the store.
    pub open spec fn wf(&self) -> bool {
        &&& self.interpreter.wf()
        &&& sound(self.interpreter.ast@, self.interpreter@, self.seen@)
        &&& soundness::tidy(outset(self.interpreter@.locals, self.seen@))
        &&& once::clear(self.seen@, self.interpreter.ast@.exprs.len() as int, usize::MAX + 1)
    }

    /// An interpreter that has read nothing yet.
    pub fn new() -> (lox: Self)
        ensures
            lox.wf(),
            !lox.had_error,
            !lox.had_runtime_error,
            lox.interpreter@ == interpreter::initial(),
            lox@.ast.exprs.len() == 0,
            lox@.ast.stmts.len() == 0,
            lox@.seen == Set::<usize>::empty(),
            lox@.diagnostics == Seq::<Seq<char>>::empty(),
    {
        let lox = Lox {
            had_error: false,
            had_runtime_error: false,
            interpreter: Interpreter::new(),
            seen: Ghost(Set::empty()),
            diagnostics: Vec::new(),
        };
        assert(lox@.diagnostics =~= Seq::empty());
        lox
    }

    /// Reads a program: scans, parses and resolves `source`. The result is
    /// `Ok` if that gave no diagnostic; the program is then set to run,
    /// and [`Lox::resume`] runs it. With `Err` nothing runs and
    /// `had_error` is set. The resolution resolves each use of a variable
    /// once.
    pub fn run(&mut self, source: String) -> (r: Result<(), ()>)
        requires
            old(self).wf(),
        ensures
            final(self).wf(),
            exists|tokens: Seq<Token>|
                #[trigger] tokens_view(tokens) == scan(source@).tokens && (final(self)@, r is Ok)
                    == read(old(self)@, tokens, scan(source@).diagnostics) && resolved_once(
                    old(self)@,
                    tokens,
                ),
            r is Err ==> final(self).had_error,
            r is Ok ==> final(self).had_error == old(self).had_error,
            final(self).had_runtime_error == old(self).had_runtime_error,
            final(self)@.ast.extends(old(self)@.ast),
    {
        reveal(read);
        reveal(resolved_once);
        self.interpreter.stop();
        proof {
            machine_safety::lemma_stopped(
                old(self).interpreter.ast@,
                old(self).interpreter@,
                old(self).seen@,
            );
        }
        let mut scanner = Scanner::new(source);
        let tokens = match scanner.scan_tokens() {
            Ok(tokens) => tokens,
            Err(tokens) => {
                self.had_error = true;
                tokens
            },
        };
        let scanned = scanner.diagnostics;
        let clean = scanned.len() == 0;
        let ghost before = self.interpreter.ast@;
        let mut ast = Ast::new();
        core::mem::swap(&mut ast, &mut self.interpreter.ast);
        let mut parser = Parser::new(&tokens, ast);
        let parsed = parser.parse();
        let Parser { tokens: _, current: _, had_error: _, ast, diagnostics: told } = parser;
        proof {
            let m = self.interpreter@;
            machine::lemma_valid_extends(before, ast@, m);
            machine_safety::lemma_grown_keeps(m.environments, m.environments);
            machine_safety::lemma_sound_carries(
                before,
                ast@,
                m,
                self.seen@,
                m.locals,
                self.seen@,
                m.environments,
                m.environments.len() as int,
            );
            assert(m == Machine { locals: m.locals, environments: m.environments, ..m });
        }
        self.interpreter.ast = ast;
        let statements = match parsed {
            Ok(statements) => statements,
            Err(_) => {
                self.had_error = true;
                self.tell(scanned);
                self.tell(told);
                assert(texts_view(self.diagnostics@) =~= old(self)@.diagnostics + (texts_view(
                    scanned@,
                ) + texts_view(told@)));
                return Err(());
            },
        };
        let ghost known = old(self).seen@;
        let ghost start = outset(old(self).interpreter@.locals, known);
        proof {
            vstd::std_specs::vec::axiom_spec_len(&self.interpreter.ast.stmts);
            lemma_resolved_once(before, self.interpreter.ast@, statements@, start);
        }
        if !clean {
            self.tell(scanned);
            self.tell(told);
            assert(texts_view(self.diagnostics@) =~= old(self)@.diagnostics + (texts_view(
                scanned@,
            ) + texts_view(told@)));
            return Err(());
        }
        let mut locals: HashMap<usize, usize> = HashMap::new();
        core::mem::swap(&mut locals, &mut self.interpreter.locals);
        let ghost m = self.interpreter@;
        let mut resolver = Resolver::new(&self.interpreter.ast, locals);
        resolver.seen = Ghost(known);
        assert(resolver@ == start);
        let resolved = resolver.resolve_vec(&statements);
        let Resolver { ast: _, scopes: _, locals, seen, twice: _, diagnostics: found } = resolver;
        self.interpreter.locals = locals;
        self.seen = seen;
        proof {
            let ast = self.interpreter.ast@;
            soundness::lemma_resolver_sound(ast, statements@, start);
            machine_safety::lemma_grown_keeps(m.environments, m.environments);
            machine_safety::lemma_sound_carries(
                ast,
                ast,
                Machine { locals: start.locals, ..m },
                known,
                self.interpreter@.locals,
                self.seen@,
                m.environments,
                m.environments.len() as int,
            );
            if resolved is Ok {
                machine_safety::lemma_loaded_sound(
                    ast,
                    self.interpreter@,
                    self.seen@,
                    statements@,
                );
            }
        }
        match resolved {
            Ok(_) => {
                self.interpreter.interpret(statements);
                Ok(())
            },
            Err(_) => {
                self.had_error = true;
                self.tell(found);
                Err(())
            },
        }
    }

    /// Adds diagnostics to those not yet taken.
    fn tell(&mut self, given: Vec<String>)
        ensures
            final(self).had_error == old(self).had_error,
            final(self).had_runtime_error == old(self).had_runtime_error,
            final(self).interpreter == old(self).interpreter,
            final(self).seen == old(self).seen,
            texts_view(final(self).diagnostics@) == texts_view(old(self).diagnostics@) + texts_view(
                given@,
            ),
    {
        let ghost added = given@;
        let mut rest = given;
        self.diagnostics.append(&mut rest);
        assert(texts_view(self.diagnostics@) =~= texts_view(old(self).diagnostics@) + texts_view(
            added,
        ));
    }

    /// Runs the program that is set to run, for at most `budget` steps or
    /// up to the next request to the host; `event` is the host's answer
    /// to the last request. A runtime error sets `had_runtime_error` and
    /// adds its diagnostic.
    pub fn resume(&mut self, event: Event, budget: usize) -> (action: Action)
        requires
            old(self).wf(),
        ensures
            final(self).wf(),
            ({
                let ran = machine::run(old(self)@.ast, old(self)@.machine, event@, budget as nat);
                &&& action@ == ran.action
                &&& final(self)@ == match ran.action {
                    ActionView::Failed { error } => LoxView {
                        had_runtime_error: true,
                        machine: ran.machine,
                        diagnostics: old(self)@.diagnostics.push(
                            report_text(error.line, error.location, error.message),
                        ),
                        ..old(self)@
                    },
                    _ => LoxView { machine: ran.machine, ..old(self)@ },
                }
            }),
    {
        assert(sound(old(self).interpreter.ast@, old(self).interpreter@, old(self).seen@));
        let action = self.interpreter.run(event, budget);
        match &action {
            Action::Failed { error } => {
                self.had_runtime_error = true;
                let diagnostic = error.diagnostic();
                self.diagnostics.push(diagnostic);
                assert(texts_view(self.diagnostics@) =~= old(self)@.diagnostics.push(diagnostic@));
            },
            _ => {},
        }
        action
    }

    /// The diagnostics given since they were last taken.
    pub fn take_diagnostics(&mut self) -> (given: Vec<String>)
        ensures
            texts_view(given@) == old(self)@.diagnostics,
            final(self)@ == (LoxView { diagnostics: Seq::empty(), ..old(self)@ }),
            final(self).interpreter == old(self).interpreter,
    {
        let mut given: Vec<String> = Vec::new();
        core::mem::swap(&mut given, &mut self.diagnostics);
        assert(texts_view(self.diagnostics@) =~= Seq::empty());
        given
    }

    /// The code to exit with: 70 after a runtime error, 65 after a static
    /// error, 0 after none.
    pub fn exit_code(&self) -> (code: u8)
        ensures
            code == if self.had_runtime_error {
                EXIT_RUNTIME_ERROR
            } else if self.had_error {
                EXIT_STATIC_ERROR
            } else {
                0
            },
    {
        if self.had_runtime_error {
            EXIT_RUNTIME_ERROR
        } else if self.had_error {
            EXIT_STATIC_ERROR
        } else {
            0
        }
    }
}

} // verus!
