//! The interpreter: a machine that runs a resolved program step by step.
//!
//! The host drives it. It calls [`Interpreter::interpret`] with the
//! statements of a program and then [`Interpreter::step`] or
//! [`Interpreter::run`] again and again; each call returns an [`Action`],
//! and the host's answer to it is the [`Event`] of the next call. What a
//! step does is written down in [`crate::machine`].

use std::collections::HashMap;
use vstd::prelude::*;
use vstd::string::*;

use crate::ast::Ast;
use crate::environment;
use crate::environment::Environments;
use crate::expr::{all_below, Expr};
use crate::locate;
use crate::lox_callable::LoxCallable;
use crate::lox_function::LoxFunction;
use crate::lox_type::{
    negate, not, numbers_equal, numbers_less, stringify_double, LoxValue, Value,
};
use crate::machine;
use crate::machine_safety::{lemma_step_sound, sound};
use crate::machine::{
    control_ok, frame_ok, frames_below, owned_by, valid, ActionView, ControlView, EventView,
    FrameView, Machine, Operation, Source, Stepped,
};
use crate::native_function::{Native, NativeFunction};
use crate::report;
use crate::report_text;
use crate::stmt::Stmt;
use crate::text::{decimal_text, text};
use crate::token::{Literal, Token, TokenType};
use crate::token_location;

verus! {

/// An error that stops a running program.
#[derive(Debug)]
pub struct RuntimeError {
    pub message: String,
    pub line: u32,
    /// Where on the line the error is, as a diagnostic words it; empty if
    /// only the line is known.
    pub location: String,
}

/// The mathematical value of a [`RuntimeError`].
pub struct RuntimeErrorView {
    pub message: Seq<char>,
    pub line: u32,
    pub location: Seq<char>,
}

impl View for RuntimeError {
    type V = RuntimeErrorView;

    open spec fn view(&self) -> RuntimeErrorView {
        RuntimeErrorView { message: self.message@, line: self.line, location: self.location@ }
    }
}

/// The error `message` on line `line`.
pub open spec fn failure(message: Seq<char>, line: u32) -> RuntimeErrorView {
    RuntimeErrorView { message, line, location: Seq::empty() }
}

/// The error `message` at `token`.
pub open spec fn failure_at(token: Token, message: Seq<char>) -> RuntimeErrorView {
    RuntimeErrorView { message, line: token.line, location: token_location(token@) }
}

impl RuntimeError {
    /// The error `message` on line `line`.
    pub fn new(message: String, line: u32) -> (e: Self)
        ensures
            e@ == failure(message@, line),
    {
        RuntimeError { message, line, location: String::new() }
    }

    /// The error `message` at `token`.
    pub fn new_token(token: &Token, message: String) -> (e: Self)
        ensures
            e@ == failure_at(*token, message@),
    {
        RuntimeError { message, line: token.line, location: locate(token) }
    }

    /// The diagnostic for this error.
    pub fn diagnostic(&self) -> (r: String)
        ensures
            r@ == report_text(self.line, self.location@, self.message@),
    {
        report(self.line, &self.location, &self.message)
    }
}

/// The values of a sequence of values.
pub open spec fn values_view(values: Seq<LoxValue>) -> Seq<Value> {
    values.map_values(|v: LoxValue| v@)
}

/// What is left to do with a result; see [`FrameView`].
#[derive(Debug)]
pub enum Frame {
    Unary { expr: usize },
    BinaryRight { expr: usize, environment: usize },
    BinaryApply { expr: usize, left: LoxValue },
    Logical { expr: usize, environment: usize },
    Assign { expr: usize, environment: usize },
    Callee { expr: usize, environment: usize },
    Arguments { expr: usize, environment: usize, callee: LoxValue, values: Vec<LoxValue> },
    Call,
    Expression,
    Print,
    Var { stmt: usize, environment: usize },
    If { stmt: usize, environment: usize },
    WhileCondition { stmt: usize, environment: usize },
    WhileBody { stmt: usize, environment: usize },
    Sequence { source: Source, next: usize, environment: usize },
    Initializer { source: Source, next: usize, environment: usize },
    Return { stmt: usize },
}

impl View for Frame {
    type V = FrameView;

    open spec fn view(&self) -> FrameView {
        match *self {
            Frame::Unary { expr } => FrameView::Unary { expr },
            Frame::BinaryRight { expr, environment } => FrameView::BinaryRight {
                expr,
                environment,
            },
            Frame::BinaryApply { expr, left } => FrameView::BinaryApply { expr, left: left@ },
            Frame::Logical { expr, environment } => FrameView::Logical { expr, environment },
            Frame::Assign { expr, environment } => FrameView::Assign { expr, environment },
            Frame::Callee { expr, environment } => FrameView::Callee { expr, environment },
            Frame::Arguments { expr, environment, callee, values } => FrameView::Arguments {
                expr,
                environment,
                callee: callee@,
                values: values_view(values@),
            },
            Frame::Call => FrameView::Call,
            Frame::Expression => FrameView::Expression,
            Frame::Print => FrameView::Print,
            Frame::Var { stmt, environment } => FrameView::Var { stmt, environment },
            Frame::If { stmt, environment } => FrameView::If { stmt, environment },
            Frame::WhileCondition { stmt, environment } => FrameView::WhileCondition {
                stmt,
                environment,
            },
            Frame::WhileBody { stmt, environment } => FrameView::WhileBody { stmt, environment },
            Frame::Sequence { source, next, environment } => FrameView::Sequence {
                source,
                next,
                environment,
            },
            Frame::Initializer { source, next, environment } => FrameView::Initializer {
                source,
                next,
                environment,
            },
            Frame::Return { stmt } => FrameView::Return { stmt },
        }
    }
}

/// What to do next; see [`ControlView`].
#[derive(Debug)]
pub enum Control {
    Idle,
    Evaluate { expr: usize, environment: usize },
    Execute { stmt: usize, environment: usize },
    Deliver { value: LoxValue },
    Complete,
    Unwind { value: LoxValue, stmt: usize },
    AwaitNumber,
    AwaitText,
}

impl View for Control {
    type V = ControlView;

    open spec fn view(&self) -> ControlView {
        match *self {
            Control::Idle => ControlView::Idle,
            Control::Evaluate { expr, environment } => ControlView::Evaluate { expr, environment },
            Control::Execute { stmt, environment } => ControlView::Execute { stmt, environment },
            Control::Deliver { value } => ControlView::Deliver { value: value@ },
            Control::Complete => ControlView::Complete,
            Control::Unwind { value, stmt } => ControlView::Unwind { value: value@, stmt },
            Control::AwaitNumber => ControlView::AwaitNumber,
            Control::AwaitText => ControlView::AwaitText,
        }
    }
}

/// What the interpreter asks of the host; see [`ActionView`].
#[derive(Debug)]
pub enum Action {
    Continue,
    Print { text: String },
    ParseNumber { text: String },
    Arithmetic { operator: TokenType, left: u64, right: u64 },
    Format { number: u64 },
    Clock,
    Finished,
    Failed { error: RuntimeError },
}

impl View for Action {
    type V = ActionView;

    open spec fn view(&self) -> ActionView {
        match *self {
            Action::Continue => ActionView::Continue,
            Action::Print { text } => ActionView::Print { text: text@ },
            Action::ParseNumber { text } => ActionView::ParseNumber { text: text@ },
            Action::Arithmetic { operator, left, right } => ActionView::Arithmetic {
                operator,
                left,
                right,
            },
            Action::Format { number } => ActionView::Format { number },
            Action::Clock => ActionView::Clock,
            Action::Finished => ActionView::Finished,
            Action::Failed { error } => ActionView::Failed { error: error@ },
        }
    }
}

/// What the host answers; see [`EventView`].
#[derive(Debug)]
pub enum Event {
    Nothing,
    Number(u64),
    Text(String),
}

impl View for Event {
    type V = EventView;

    open spec fn view(&self) -> EventView {
        match *self {
            Event::Nothing => EventView::Nothing,
            Event::Number(n) => EventView::Number(n),
            Event::Text(t) => EventView::Text(t@),
        }
    }
}

/// The outcome of a binary operator on two values; see [`Operation`].
#[derive(Debug)]
pub enum Outcome {
    Done(LoxValue),
    Compute { operator: TokenType, left: u64, right: u64 },
    Fail(RuntimeError),
}

impl View for Outcome {
    type V = Operation;

    open spec fn view(&self) -> Operation {
        match *self {
            Outcome::Done(value) => Operation::Done(value@),
            Outcome::Compute { operator, left, right } => Operation::Compute {
                operator,
                left,
                right,
            },
            Outcome::Fail(error) => Operation::Fail(error@),
        }
    }
}

/// The values of a stack of frames.
pub open spec fn frames_view(frames: Seq<Frame>) -> Seq<FrameView> {
    frames.map_values(|f: Frame| f@)
}

/// The interpreter: the nodes of the programs, the environments, the
/// function values, and what is left to run.
pub struct Interpreter {
    /// The nodes of the programs read so far.
    pub ast: Ast,
    /// The environment of the globals.
    pub globals: usize,
    pub environments: Environments,
    /// The function values made so far.
    pub functions: Vec<LoxFunction>,
    /// The distances that the resolver found, by expression.
    pub locals: HashMap<usize, usize>,
    /// The statements of the program that runs.
    pub program: Vec<usize>,
    pub frames: Vec<Frame>,
    pub control: Control,
}

impl View for Interpreter {
    type V = Machine;

    open spec fn view(&self) -> Machine {
        Machine {
            environments: self.environments@,
            functions: self.functions@,
            locals: self.locals@,
            program: self.program@,
            frames: frames_view(self.frames@),
            control: self.control@,
        }
    }
}

/// The native function `clock`.
pub open spec fn clock() -> Value {
    Value::Native(NativeFunction { arity: 0, function: Native::Clock })
}

/// The state of an interpreter that has run nothing: its globals hold the
/// native functions and nothing else.
pub open spec fn initial() -> Machine {
    Machine {
        environments: environment::define(
            seq![environment::fresh(None)],
            0,
            "clock"@,
            clock(),
        ),
        functions: Seq::empty(),
        locals: Map::empty(),
        program: Seq::empty(),
        frames: Seq::empty(),
        control: ControlView::Idle,
    }
}

impl Interpreter {
    /// What the interpreter names is there: nodes, environments,
    /// functions.
    pub open spec fn wf(&self) -> bool {
        &&& self.globals == 0
        &&& valid(self.ast@, self@)
    }

    /// `self` is a state of the interpreter `before` for the same
    /// programs and distances.
    pub open spec fn continues(&self, before: &Interpreter) -> bool {
        &&& self.ast == before.ast
        &&& self.globals == before.globals
        &&& self.locals == before.locals
    }

    /// An interpreter without a program. Its globals hold the native
    /// function `clock`.
    pub fn new() -> (i: Self)
        ensures
            i.wf(),
            i.ast@.exprs.len() == 0,
            i.ast@.stmts.len() == 0,
            i@ == initial(),
    {
        let mut environments = Environments::new();
        environments.define(
            0,
            text("clock"),
            LoxValue::Native(NativeFunction { arity: 0, function: Native::Clock }),
        );
        let i = Interpreter {
            ast: Ast::new(),
            globals: 0,
            environments,
            functions: Vec::new(),
            locals: HashMap::new(),
            program: Vec::new(),
            frames: Vec::new(),
            control: Control::Idle,
        };
        assert(i@.frames =~= Seq::empty());
        assert(i@.functions =~= Seq::empty());
        assert(i@.program =~= Seq::empty());
        i
    }

    /// Makes the statements `statements` the program to run. What was
    /// running before is given up.
    pub fn interpret(&mut self, statements: Vec<usize>)
        requires
            old(self).wf(),
            all_below(statements@, old(self).ast@.stmts.len() as int),
        ensures
            final(self).wf(),
            final(self).continues(old(self)),
            final(self)@ == machine::loaded(old(self)@, statements@),
    {
        proof {
            vstd::std_specs::vec::axiom_spec_len(&statements);
        }
        self.program = statements;
        self.frames.clear();
        self.frames.push(Frame::Sequence { source: Source::Program, next: 0, environment: 0 });
        self.control = Control::Complete;
        assert(self@.frames =~= seq![
            FrameView::Sequence { source: Source::Program, next: 0, environment: 0 },
        ]);
    }

    /// Records the distance `depth` for the expression `expr`.
    pub fn resolve(&mut self, expr: usize, depth: usize)
        requires
            old(self).wf(),
        ensures
            final(self).wf(),
            final(self).ast == old(self).ast,
            final(self)@ == (Machine { locals: old(self)@.locals.insert(expr, depth), ..old(self)@ }),
    {
        broadcast use vstd::std_specs::hash::group_hash_axioms;

        self.locals.insert(expr, depth);
    }

    /// Puts a frame on the stack.
    fn push(&mut self, frame: Frame)
        requires
            old(self).wf(),
            frame_ok(old(self).ast@, old(self)@.environments.len(), frame@),
            owned_by(frame@) matches Some(e) ==> frames_below(old(self)@.frames, e as int),
        ensures
            final(self).wf(),
            final(self).continues(old(self)),
            final(self)@ == old(self)@.pushed(frame@),
    {
        self.frames.push(frame);
        assert(self@.frames =~= old(self)@.frames.push(frame@));
        proof {
            let before = old(self)@.frames;
            let after = self@.frames;
            assert forall|j: int| 0 <= j < after.len() implies (owned_by(
                #[trigger] after[j],
            ) matches Some(e) ==> frames_below(after.subrange(0, j), e as int)) by {
                if j < before.len() {
                    assert(after[j] == before[j]);
                    assert(after.subrange(0, j) =~= before.subrange(0, j));
                } else {
                    assert(after.subrange(0, j) =~= before);
                }
            }
        }
    }

    /// Takes the top frame from the stack.
    fn pop(&mut self) -> (frame: Frame)
        requires
            old(self).wf(),
            old(self).frames.len() > 0,
        ensures
            final(self).wf(),
            final(self).continues(old(self)),
            final(self)@ == old(self)@.popped(),
            frame@ == old(self)@.frames.last(),
            frame_ok(final(self).ast@, final(self)@.environments.len(), frame@),
            owned_by(frame@) matches Some(e) ==> frames_below(final(self)@.frames, e as int),
    {
        let frame = self.frames.pop().unwrap();
        assert(self@.frames =~= old(self)@.frames.drop_last());
        assert(old(self)@.frames.last() == old(self)@.frames[old(self)@.frames.len() - 1]);
        proof {
            let before = old(self)@.frames;
            let after = self@.frames;
            assert(after =~= before.subrange(0, before.len() - 1));
            assert forall|j: int| 0 <= j < after.len() implies (owned_by(
                #[trigger] after[j],
            ) matches Some(e) ==> frames_below(after.subrange(0, j), e as int)) by {
                assert(after[j] == before[j]);
                assert(after.subrange(0, j) =~= before.subrange(0, j));
            }
        }
        frame
    }

    /// Goes on with `control`.
    fn go(&mut self, control: Control) -> (action: Action)
        requires
            old(self).wf(),
            control_ok(old(self).ast@, old(self)@.environments.len(), control@),
        ensures
            final(self).wf(),
            final(self).continues(old(self)),
            (Stepped { machine: final(self)@, action: action@ }) == machine::go(
                old(self)@,
                control@,
            ),
    {
        self.control = control;
        Action::Continue
    }

    /// Hands `value` to the top frame.
    fn deliver(&mut self, value: LoxValue) -> (action: Action)
        requires
            old(self).wf(),
        ensures
            final(self).wf(),
            final(self).continues(old(self)),
            (Stepped { machine: final(self)@, action: action@ }) == machine::deliver(
                old(self)@,
                value@,
            ),
    {
        self.go(Control::Deliver { value })
    }

    /// Asks the host for `action`; `control` takes the answer.
    fn ask(&mut self, control: Control, action: Action) -> (asked: Action)
        requires
            old(self).wf(),
            control_ok(old(self).ast@, old(self)@.environments.len(), control@),
        ensures
            final(self).wf(),
            final(self).continues(old(self)),
            (Stepped { machine: final(self)@, action: asked@ }) == machine::ask(
                old(self)@,
                control@,
                action@,
            ),
    {
        self.control = control;
        action
    }

    /// Stops on `error`.
    fn fail(&mut self, error: RuntimeError) -> (action: Action)
        requires
            old(self).wf(),
        ensures
            final(self).wf(),
            final(self).continues(old(self)),
            (Stepped { machine: final(self)@, action: action@ }) == machine::fail(
                old(self)@,
                error@,
            ),
    {
        self.frames.clear();
        self.control = Control::Idle;
        assert(self@.frames =~= Seq::empty());
        Action::Failed { error }
    }

    /// Gives up what is running.
    pub fn stop(&mut self)
        requires
            old(self).wf(),
        ensures
            final(self).wf(),
            final(self).continues(old(self)),
            final(self)@ == old(self)@.stopped(),
    {
        let _ = self.finish();
    }

    /// Stops at the end of the program.
    fn finish(&mut self) -> (action: Action)
        requires
            old(self).wf(),
        ensures
            final(self).wf(),
            final(self).continues(old(self)),
            final(self)@ == old(self)@.stopped(),
            action@ == ActionView::Finished,
    {
        self.frames.clear();
        self.control = Control::Idle;
        assert(self@.frames =~= Seq::empty());
        Action::Finished
    }

    /// Keeps `frame` and evaluates `expr`.
    fn evaluate_with(&mut self, frame: Frame, expr: usize, environment: usize) -> (action: Action)
        requires
            old(self).wf(),
            frame_ok(old(self).ast@, old(self)@.environments.len(), frame@),
            owned_by(frame@) matches Some(e) ==> frames_below(old(self)@.frames, e as int),
            expr < old(self).ast@.exprs.len(),
            environment < old(self)@.environments.len(),
        ensures
            final(self).wf(),
            final(self).continues(old(self)),
            (Stepped { machine: final(self)@, action: action@ }) == machine::evaluate_with(
                old(self)@,
                frame@,
                expr,
                environment,
            ),
    {
        self.push(frame);
        self.go(Control::Evaluate { expr, environment })
    }

    fn lost() -> (e: RuntimeError)
        ensures
            e@ == machine::lost(),
    {
        RuntimeError::new(text("The interpreter has lost its place."), 0)
    }

    fn misfit() -> (e: RuntimeError)
        ensures
            e@ == machine::misfit(),
    {
        RuntimeError::new(text("The host's answer does not fit the request."), 0)
    }

    /// Reads a variable: at the distance that the resolver found for the
    /// expression, or in the globals if it found none.
    fn look_up_variable(&self, name: &Token, expr: usize, environment: usize) -> (r: Result<
        LoxValue,
        RuntimeError,
    >)
        requires
            self.wf(),
        ensures
            match r {
                Ok(v) => machine::look_up_variable(self@, *name, expr, environment) == Ok::<
                    Value,
                    RuntimeErrorView,
                >(v@),
                Err(e) => machine::look_up_variable(self@, *name, expr, environment) == Err::<
                    Value,
                    RuntimeErrorView,
                >(e@),
            },
    {
        broadcast use vstd::std_specs::hash::group_hash_axioms;

        match self.locals.get(&expr) {
            Some(dist) => self.environments.get_at(environment, *dist, name),
            None => self.environments.get(self.globals, name),
        }
    }

    /// Starts the evaluation of an expression.
    fn evaluate(&mut self, expr: usize, environment: usize) -> (action: Action)
        requires
            old(self).wf(),
            expr < old(self).ast@.exprs.len(),
            environment < old(self)@.environments.len(),
        ensures
            final(self).wf(),
            final(self).continues(old(self)),
            (Stepped { machine: final(self)@, action: action@ }) == machine::evaluate(
                old(self).ast@,
                old(self)@,
                expr,
                environment,
            ),
    {
        assert(self.ast@.exprs[expr as int] == self.ast.exprs@[expr as int]@);
        proof {
            crate::ast::lemma_expr_below(self.ast@, expr as int);
        }
        match &self.ast.exprs[expr] {
            Expr::Literal { value } => {
                let value = value.clone();
                self.visit_literal_expr(value)
            },
            Expr::Grouping { expression } => {
                let inner = *expression;
                self.go(Control::Evaluate { expr: inner, environment })
            },
            Expr::Unary { operator: _, right } => {
                let right = *right;
                self.evaluate_with(Frame::Unary { expr }, right, environment)
            },
            Expr::Binary { left, operator: _, right: _ } => {
                let left = *left;
                self.evaluate_with(Frame::BinaryRight { expr, environment }, left, environment)
            },
            Expr::Logical { left, operator: _, right: _ } => {
                let left = *left;
                self.evaluate_with(Frame::Logical { expr, environment }, left, environment)
            },
            Expr::Variable { name } => {
                let found = self.look_up_variable(name, expr, environment);
                match found {
                    Ok(value) => self.deliver(value),
                    Err(error) => self.fail(error),
                }
            },
            Expr::Assign { name: _, value } => {
                let value = *value;
                self.evaluate_with(Frame::Assign { expr, environment }, value, environment)
            },
            Expr::Call { callee, paren: _, arguments: _ } => {
                let callee = *callee;
                self.evaluate_with(Frame::Callee { expr, environment }, callee, environment)
            },
        }
    }

    /// Gives the value of a literal. That of a number is the host's to
    /// find.
    fn visit_literal_expr(&mut self, value: Literal) -> (action: Action)
        requires
            old(self).wf(),
        ensures
            final(self).wf(),
            final(self).continues(old(self)),
            (Stepped { machine: final(self)@, action: action@ }) == (match value {
                Literal::Number(text) => machine::ask(
                    old(self)@,
                    ControlView::AwaitNumber,
                    ActionView::ParseNumber { text: text@ },
                ),
                _ => machine::deliver(old(self)@, machine::constant(value)),
            }),
    {
        match value {
            Literal::Nil => self.deliver(LoxValue::Nil),
            Literal::Boolean(b) => self.deliver(LoxValue::Boolean(b)),
            Literal::Number(text) => self.ask(Control::AwaitNumber, Action::ParseNumber { text }),
            Literal::Text(text) => self.deliver(LoxValue::LoxString(text)),
        }
    }

    /// Starts the execution of a statement.
    fn execute(&mut self, stmt: usize, environment: usize) -> (action: Action)
        requires
            old(self).wf(),
            stmt < old(self).ast@.stmts.len(),
            environment < old(self)@.environments.len(),
        ensures
            final(self).wf(),
            final(self).continues(old(self)),
            (Stepped { machine: final(self)@, action: action@ }) == machine::execute(
                old(self).ast@,
                old(self)@,
                stmt,
                environment,
            ),
    {
        assert(self.ast@.stmts[stmt as int] == self.ast.stmts@[stmt as int]@);
        proof {
            crate::ast::lemma_stmt_below(self.ast@, stmt as int);
        }
        match &self.ast.stmts[stmt] {
            Stmt::Expression { expression } => {
                let expression = *expression;
                self.evaluate_with(Frame::Expression, expression, environment)
            },
            Stmt::Print { expression } => {
                let expression = *expression;
                self.evaluate_with(Frame::Print, expression, environment)
            },
            Stmt::Var { name: _, initializer } => {
                let initializer = *initializer;
                self.evaluate_with(Frame::Var { stmt, environment }, initializer, environment)
            },
            Stmt::Block { statements: _ } => self.execute_block(stmt, environment),
            Stmt::If { condition, then_branch: _, else_branch: _ } => {
                let condition = *condition;
                self.evaluate_with(Frame::If { stmt, environment }, condition, environment)
            },
            Stmt::While { condition, body: _ } => {
                let condition = *condition;
                self.evaluate_with(
                    Frame::WhileCondition { stmt, environment },
                    condition,
                    environment,
                )
            },
            Stmt::Function { name: _, params: _, body: _ } => self.visit_function_stmt(
                stmt,
                environment,
            ),
            Stmt::Return { keyword: _, value } => {
                let value = *value;
                self.evaluate_with(Frame::Return { stmt }, value, environment)
            },
        }
    }

    /// Adds an environment inside `enclosing`.
    fn new_environment(&mut self, enclosing: usize) -> (inner: usize)
        requires
            old(self).wf(),
            enclosing < old(self)@.environments.len(),
        ensures
            final(self).wf(),
            final(self).continues(old(self)),
            inner == old(self)@.environments.len(),
            final(self)@ == old(self)@.with_environments(
                old(self)@.environments.push(
                    environment::fresh(Some(enclosing)),
                ),
            ),
    {
        let inner = self.environments.new_enclosed(enclosing);
        proof {
            let ast = self.ast@;
            let before = old(self)@;
            let after = self@;
            assert forall|h: int| 0 <= h < after.functions.len() implies machine::function_ok(
                ast,
                after.environments.len(),
                #[trigger] after.functions[h],
            ) by {
                assert(machine::function_ok(ast, before.environments.len(), before.functions[h]));
            }
            assert forall|i: int| 0 <= i < after.frames.len() implies frame_ok(
                ast,
                after.environments.len(),
                #[trigger] after.frames[i],
            ) by {
                assert(frame_ok(ast, before.environments.len(), before.frames[i]));
            }
        }
        inner
    }

    /// Binds `name` to `value` in the environment `environment`.
    fn define(&mut self, environment: usize, name: String, value: LoxValue)
        requires
            old(self).wf(),
            environment < old(self)@.environments.len(),
        ensures
            final(self).wf(),
            final(self).continues(old(self)),
            final(self)@ == old(self)@.with_environments(
                environment::define(old(self)@.environments, environment, name@, value@),
            ),
    {
        self.environments.define(environment, name, value);
    }

    /// Enters a block: its statements run in a new environment inside
    /// `environment`.
    pub fn execute_block(&mut self, stmt: usize, environment: usize) -> (action: Action)
        requires
            old(self).wf(),
            stmt < old(self).ast@.stmts.len(),
            old(self).ast@.stmts[stmt as int] is Block,
            environment < old(self)@.environments.len(),
        ensures
            final(self).wf(),
            final(self).continues(old(self)),
            (Stepped { machine: final(self)@, action: action@ }) == machine::execute(
                old(self).ast@,
                old(self)@,
                stmt,
                environment,
            ),
    {
        let inner = self.new_environment(environment);
        self.push(Frame::Sequence { source: Source::Block { stmt }, next: 0, environment: inner });
        self.go(Control::Complete)
    }

    /// Declares a function: a new function value that keeps the
    /// environment `environment` is bound to the function's name there.
    fn declare(&mut self, stmt: usize, environment: usize)
        requires
            old(self).wf(),
            stmt < old(self).ast@.stmts.len(),
            environment < old(self)@.environments.len(),
        ensures
            final(self).wf(),
            final(self).continues(old(self)),
            final(self)@ == machine::declare(old(self).ast@, old(self)@, stmt, environment),
    {
        assert(self.ast@.stmts[stmt as int] == self.ast.stmts@[stmt as int]@);
        proof {
            crate::ast::lemma_stmt_below(self.ast@, stmt as int);
        }
        match &self.ast.stmts[stmt] {
            Stmt::Function { name, params, body: _ } => {
                let handle = self.functions.len();
                let func = LoxFunction {
                    arity: params.len() as u32,
                    declaration: stmt,
                    closure: environment,
                };
                let lexeme = name.lexeme.clone();
                self.functions.push(func);
                self.environments.define(environment, lexeme, LoxValue::Function(handle));
                self.environments.capture(environment);
            },
            _ => {},
        }
    }

    /// Executes a function declaration.
    fn visit_function_stmt(&mut self, stmt: usize, environment: usize) -> (action: Action)
        requires
            old(self).wf(),
            stmt < old(self).ast@.stmts.len(),
            old(self).ast@.stmts[stmt as int] is Function,
            environment < old(self)@.environments.len(),
        ensures
            final(self).wf(),
            final(self).continues(old(self)),
            (Stepped { machine: final(self)@, action: action@ }) == machine::execute(
                old(self).ast@,
                old(self)@,
                stmt,
                environment,
            ),
    {
        self.declare(stmt, environment);
        self.go(Control::Complete)
    }

    /// Applies a unary operator: `-` negates a number, `!` gives whether
    /// the value is not truthy.
    pub fn visit_unary_expr(operator: &Token, right: &LoxValue) -> (r: Result<LoxValue, RuntimeError>)
        ensures
            match r {
                Ok(v) => machine::unary(*operator, right@) == Ok::<Value, RuntimeErrorView>(v@),
                Err(e) => machine::unary(*operator, right@) == Err::<Value, RuntimeErrorView>(e@),
            },
    {
        if operator.kind == TokenType::MINUS {
            match right {
                LoxValue::Number(val) => Ok(LoxValue::Number(negate(*val))),
                _ => Err(invalid_operand_number(operator)),
            }
        } else if operator.kind == TokenType::BANG {
            Ok(not(right))
        } else {
            Err(RuntimeError::new_token(operator, text("Missed Parser Error")))
        }
    }

    /// Applies a binary operator to two values, as far as the library
    /// can: arithmetic on two numbers is left to the host.
    pub fn visit_binary_expr(operator: &Token, left: &LoxValue, right: &LoxValue) -> (r: Outcome)
        ensures
            r@ == machine::binary(*operator, left@, right@),
    {
        let kind = operator.kind;
        if kind == TokenType::PLUS {
            match (left, right) {
                (LoxValue::Number(a), LoxValue::Number(b)) => Outcome::Compute {
                    operator: kind,
                    left: *a,
                    right: *b,
                },
                (LoxValue::LoxString(a), LoxValue::LoxString(b)) => {
                    let mut joined = a.clone();
                    joined.append(b.as_str());
                    Outcome::Done(LoxValue::LoxString(joined))
                },
                _ => Outcome::Fail(
                    RuntimeError::new_token(
                        operator,
                        text("Operands must be two numbers or two strings."),
                    ),
                ),
            }
        } else if kind == TokenType::MINUS || kind == TokenType::STAR || kind == TokenType::SLASH
            || kind == TokenType::GREATER || kind == TokenType::GREATER_EQUAL || kind
            == TokenType::LESS || kind == TokenType::LESS_EQUAL {
            match (left, right) {
                (LoxValue::Number(a), LoxValue::Number(b)) => {
                    let a = *a;
                    let b = *b;
                    if kind == TokenType::GREATER {
                        Outcome::Done(LoxValue::Boolean(numbers_less(b, a)))
                    } else if kind == TokenType::GREATER_EQUAL {
                        Outcome::Done(LoxValue::Boolean(numbers_less(b, a) || numbers_equal(a, b)))
                    } else if kind == TokenType::LESS {
                        Outcome::Done(LoxValue::Boolean(numbers_less(a, b)))
                    } else if kind == TokenType::LESS_EQUAL {
                        Outcome::Done(LoxValue::Boolean(numbers_less(a, b) || numbers_equal(a, b)))
                    } else {
                        Outcome::Compute { operator: kind, left: a, right: b }
                    }
                },
                _ => Outcome::Fail(invalid_operand_number(operator)),
            }
        } else if kind == TokenType::EQUAL_EQUAL {
            Outcome::Done(LoxValue::Boolean(left.equals(right)))
        } else if kind == TokenType::BANG_EQUAL {
            Outcome::Done(LoxValue::Boolean(!left.equals(right)))
        } else {
            Outcome::Fail(RuntimeError::new_token(operator, text("Missed Parser Error")))
        }
    }

    /// The text that `print` writes for a value that is no number. The
    /// text of a number is the host's to give.
    pub fn stringify(&self, value: &LoxValue) -> (r: String)
        requires
            self.wf(),
            !(value@ is Number),
        ensures
            r@ == machine::shown(self.ast@, self@, value@),
    {
        match value {
            LoxValue::Boolean(b) => if *b {
                text("true")
            } else {
                text("false")
            },
            LoxValue::Number(_) => String::new(),
            LoxValue::LoxString(s) => s.clone(),
            LoxValue::Nil => text("nil"),
            LoxValue::Function(handle) => {
                if *handle < self.functions.len() && self.functions[*handle].declaration
                    < self.ast.stmts.len() {
                    let declaration = self.functions[*handle].declaration;
                    assert(self.ast@.stmts[declaration as int]
                        == self.ast.stmts@[declaration as int]@);
                    match &self.ast.stmts[declaration] {
                        Stmt::Function { name, params: _, body: _ } => {
                            let mut out = text("<fn ");
                            out.append(name.lexeme.as_str());
                            out.append(">");
                            out
                        },
                        _ => text("<fn>"),
                    }
                } else {
                    text("<fn>")
                }
            },
            LoxValue::Native(_) => text("<native fn>"),
        }
    }

    /// Goes on after the operand of a unary operator.
    fn resume_unary(&mut self, expr: usize, value: LoxValue) -> (action: Action)
        requires
            old(self).wf(),
            frame_ok(
                old(self).ast@,
                old(self)@.environments.len(),
                FrameView::Unary { expr },
            ),
        ensures
            final(self).wf(),
            final(self).continues(old(self)),
            (Stepped { machine: final(self)@, action: action@ }) == machine::resume(
                old(self).ast@,
                old(self)@,
                FrameView::Unary { expr },
                value@,
            ),
    {
        assert(self.ast@.exprs[expr as int] == self.ast.exprs@[expr as int]@);
        match &self.ast.exprs[expr] {
            Expr::Unary { operator, right: _ } => {
                let result = Self::visit_unary_expr(operator, &value);
                match result {
                    Ok(v) => self.deliver(v),
                    Err(error) => self.fail(error),
                }
            },
            _ => self.fail(Self::lost()),
        }
    }

    /// Goes on after the left operand of a binary operator.
    fn resume_binary_right(&mut self, expr: usize, environment: usize, value: LoxValue) -> (action:
        Action)
        requires
            old(self).wf(),
            frame_ok(
                old(self).ast@,
                old(self)@.environments.len(),
                FrameView::BinaryRight { expr, environment },
            ),
        ensures
            final(self).wf(),
            final(self).continues(old(self)),
            (Stepped { machine: final(self)@, action: action@ }) == machine::resume(
                old(self).ast@,
                old(self)@,
                FrameView::BinaryRight { expr, environment },
                value@,
            ),
    {
        assert(self.ast@.exprs[expr as int] == self.ast.exprs@[expr as int]@);
        proof {
            crate::ast::lemma_expr_below(self.ast@, expr as int);
        }
        match &self.ast.exprs[expr] {
            Expr::Binary { left: _, operator: _, right } => {
                let right = *right;
                self.evaluate_with(Frame::BinaryApply { expr, left: value }, right, environment)
            },
            _ => self.fail(Self::lost()),
        }
    }

    /// Goes on after the right operand of a binary operator.
    fn resume_binary_apply(&mut self, expr: usize, left: LoxValue, value: LoxValue) -> (action:
        Action)
        requires
            old(self).wf(),
            frame_ok(
                old(self).ast@,
                old(self)@.environments.len(),
                FrameView::BinaryApply { expr, left: left@ },
            ),
        ensures
            final(self).wf(),
            final(self).continues(old(self)),
            (Stepped { machine: final(self)@, action: action@ }) == machine::resume(
                old(self).ast@,
                old(self)@,
                FrameView::BinaryApply { expr, left: left@ },
                value@,
            ),
    {
        assert(self.ast@.exprs[expr as int] == self.ast.exprs@[expr as int]@);
        match &self.ast.exprs[expr] {
            Expr::Binary { left: _, operator, right: _ } => {
                let outcome = Self::visit_binary_expr(operator, &left, &value);
                match outcome {
                    Outcome::Done(result) => self.deliver(result),
                    Outcome::Compute { operator, left, right } => self.ask(
                        Control::AwaitNumber,
                        Action::Arithmetic { operator, left, right },
                    ),
                    Outcome::Fail(error) => self.fail(error),
                }
            },
            _ => self.fail(Self::lost()),
        }
    }

    /// Goes on after the left operand of `and` or `or`: with that operand
    /// as the result where it decides, with the right operand where it
    /// does not.
    fn visit_logical_expr(&mut self, expr: usize, environment: usize, value: LoxValue) -> (action:
        Action)
        requires
            old(self).wf(),
            frame_ok(
                old(self).ast@,
                old(self)@.environments.len(),
                FrameView::Logical { expr, environment },
            ),
        ensures
            final(self).wf(),
            final(self).continues(old(self)),
            (Stepped { machine: final(self)@, action: action@ }) == machine::resume(
                old(self).ast@,
                old(self)@,
                FrameView::Logical { expr, environment },
                value@,
            ),
    {
        assert(self.ast@.exprs[expr as int] == self.ast.exprs@[expr as int]@);
        proof {
            crate::ast::lemma_expr_below(self.ast@, expr as int);
        }
        match &self.ast.exprs[expr] {
            Expr::Logical { left: _, operator, right } => {
                let right = *right;
                let kind = operator.kind;
                if kind == TokenType::OR {
                    if value.is_truthy() {
                        return self.deliver(value);
                    }
                } else if kind == TokenType::AND {
                    if !value.is_truthy() {
                        return self.deliver(value);
                    }
                }
                self.go(Control::Evaluate { expr: right, environment })
            },
            _ => self.fail(Self::lost()),
        }
    }

    /// Assigns the value to the variable of an assignment: at the
    /// distance that the resolver found for the expression, or in the
    /// globals if it found none.
    fn visit_assign_expr(&mut self, expr: usize, environment: usize, value: LoxValue) -> (action:
        Action)
        requires
            old(self).wf(),
            frame_ok(
                old(self).ast@,
                old(self)@.environments.len(),
                FrameView::Assign { expr, environment },
            ),
        ensures
            final(self).wf(),
            final(self).continues(old(self)),
            (Stepped { machine: final(self)@, action: action@ }) == machine::resume(
                old(self).ast@,
                old(self)@,
                FrameView::Assign { expr, environment },
                value@,
            ),
    {
        broadcast use vstd::std_specs::hash::group_hash_axioms;

        assert(self.ast@.exprs[expr as int] == self.ast.exprs@[expr as int]@);
        match &self.ast.exprs[expr] {
            Expr::Assign { name, value: _ } => {
                let assigned = match self.locals.get(&expr) {
                    Some(dist) => self.environments.assign_at(environment, *dist, name, &value),
                    None => self.environments.assign(self.globals, name, &value),
                };
                proof {
                    let envs = old(self)@.environments;
                    if old(self)@.locals.contains_key(expr) {
                        environment::lemma_ancestor_bounds(
                            envs,
                            environment,
                            old(self)@.locals[expr] as nat,
                        );
                    } else {
                        environment::lemma_holder_bounds(envs, 0, name.lexeme@);
                    }
                }
                match assigned {
                    Ok(_) => self.deliver(value),
                    Err(error) => self.fail(error),
                }
            },
            _ => self.fail(Self::lost()),
        }
    }

    /// Goes on after what is called is known: with the first argument, or
    /// with the call if there is none.
    fn visit_call_expr(&mut self, expr: usize, environment: usize, value: LoxValue) -> (action:
        Action)
        requires
            old(self).wf(),
            frame_ok(
                old(self).ast@,
                old(self)@.environments.len(),
                FrameView::Callee { expr, environment },
            ),
        ensures
            final(self).wf(),
            final(self).continues(old(self)),
            (Stepped { machine: final(self)@, action: action@ }) == machine::resume(
                old(self).ast@,
                old(self)@,
                FrameView::Callee { expr, environment },
                value@,
            ),
    {
        assert(self.ast@.exprs[expr as int] == self.ast.exprs@[expr as int]@);
        proof {
            crate::ast::lemma_expr_below(self.ast@, expr as int);
        }
        match &self.ast.exprs[expr] {
            Expr::Call { callee: _, paren, arguments } => {
                if arguments.len() == 0 {
                    let paren = paren.clone();
                    let values: Vec<LoxValue> = Vec::new();
                    assert(values_view(values@) =~= Seq::empty());
                    self.call_value(&paren, value, values)
                } else {
                    let first = arguments[0];
                    let values: Vec<LoxValue> = Vec::new();
                    assert(values_view(values@) =~= Seq::empty());
                    self.evaluate_with(
                        Frame::Arguments { expr, environment, callee: value, values },
                        first,
                        environment,
                    )
                }
            },
            _ => self.fail(Self::lost()),
        }
    }

    /// Goes on after an argument of a call: with the next argument, or
    /// with the call if it was the last.
    fn resume_arguments(
        &mut self,
        expr: usize,
        environment: usize,
        callee: LoxValue,
        values: Vec<LoxValue>,
        value: LoxValue,
    ) -> (action: Action)
        requires
            old(self).wf(),
            frame_ok(
                old(self).ast@,
                old(self)@.environments.len(),
                FrameView::Arguments {
                    expr,
                    environment,
                    callee: callee@,
                    values: values_view(values@),
                },
            ),
        ensures
            final(self).wf(),
            final(self).continues(old(self)),
            (Stepped { machine: final(self)@, action: action@ }) == machine::resume(
                old(self).ast@,
                old(self)@,
                FrameView::Arguments {
                    expr,
                    environment,
                    callee: callee@,
                    values: values_view(values@),
                },
                value@,
            ),
    {
        assert(self.ast@.exprs[expr as int] == self.ast.exprs@[expr as int]@);
        proof {
            crate::ast::lemma_expr_below(self.ast@, expr as int);
        }
        let ghost before = values_view(values@);
        let mut values = values;
        values.push(value);
        assert(values_view(values@) =~= before.push(value@));
        match &self.ast.exprs[expr] {
            Expr::Call { callee: _, paren, arguments } => {
                if values.len() < arguments.len() {
                    let next = arguments[values.len()];
                    self.evaluate_with(
                        Frame::Arguments { expr, environment, callee, values },
                        next,
                        environment,
                    )
                } else {
                    let paren = paren.clone();
                    self.call_value(&paren, callee, values)
                }
            },
            _ => self.fail(Self::lost()),
        }
    }

    /// Calls `callee`, which must be a function, with `values`.
    fn call_value(&mut self, paren: &Token, callee: LoxValue, values: Vec<LoxValue>) -> (action:
        Action)
        requires
            old(self).wf(),
        ensures
            final(self).wf(),
            final(self).continues(old(self)),
            (Stepped { machine: final(self)@, action: action@ }) == machine::call(
                old(self).ast@,
                old(self)@,
                *paren,
                callee@,
                values_view(values@),
            ),
    {
        match callee {
            LoxValue::Function(handle) => {
                if handle < self.functions.len() {
                    let func = self.functions[handle];
                    self.call_function(&func, values, paren)
                } else {
                    self.fail(not_callable(paren))
                }
            },
            LoxValue::Native(func) => self.call_function(&func, values, paren),
            _ => self.fail(not_callable(paren)),
        }
    }

    /// Calls `func` with `arguments`, if they are as many as its arity.
    fn call_function<F: LoxCallable>(&mut self, func: &F, arguments: Vec<LoxValue>, paren: &Token)
        -> (action: Action)
        requires
            old(self).wf(),
            func.known(old(self).ast@, old(self)@),
        ensures
            final(self).wf(),
            final(self).continues(old(self)),
            (Stepped { machine: final(self)@, action: action@ }) == (if arguments@.len()
                != func.arity_of() {
                machine::fail(
                    old(self)@,
                    machine::arity_mismatch(*paren, func.arity_of(), arguments@.len()),
                )
            } else {
                func.called(old(self).ast@, old(self)@, values_view(arguments@))
            }),
    {
        let arity = func.arity();
        if arguments.len() != arity as usize {
            let mut message = text("Expected ");
            message.append(decimal_text(arity as u64).as_str());
            message.append(" arguments but got ");
            message.append(decimal_text(arguments.len() as u64).as_str());
            message.append(".");
            self.fail(RuntimeError::new_token(paren, message))
        } else {
            func.call(self, arguments)
        }
    }

    /// Enters the function `func` with as many arguments as its arity.
    pub fn enter(&mut self, func: LoxFunction, arguments: Vec<LoxValue>) -> (action: Action)
        requires
            old(self).wf(),
            machine::function_ok(old(self).ast@, old(self)@.environments.len(), func),
            arguments@.len() == func.arity,
        ensures
            final(self).wf(),
            final(self).continues(old(self)),
            (Stepped { machine: final(self)@, action: action@ }) == machine::enter(
                old(self).ast@,
                old(self)@,
                func,
                values_view(arguments@),
            ),
    {
        let inner = self.new_environment(func.closure);
        let ghost fresh = environment::fresh(Some(func.closure));
        let ghost values = values_view(arguments@);
        assert(self.ast@.stmts[func.declaration as int] == self.ast.stmts@[func.declaration as int]@);
        match &self.ast.stmts[func.declaration] {
            Stmt::Function { name: _, params, body: _ } => {
                let mut i: usize = 0;
                while i < params.len()
                    invariant
                        self.wf(),
                        self.continues(old(self)),
                        i <= params.len(),
                        params@.len() == arguments@.len(),
                        values == values_view(arguments@),
                        inner == old(self)@.environments.len(),
                        self@.environments.len() == inner + 1,
                        self@ == old(self)@.with_environments(
                            old(self)@.environments.push(self@.environments[inner as int]),
                        ),
                        machine::bind_params(
                            self@.environments[inner as int],
                            params@,
                            values,
                            i as nat,
                        ) == machine::bind_params(fresh, params@, values, 0),
                    decreases params.len() - i,
                {
                    let ghost at = self@.environments[inner as int];
                    self.environments.define(
                        inner,
                        params[i].lexeme.clone(),
                        arguments[i].clone(),
                    );
                    assert(self@.environments =~= old(self)@.environments.push(
                        at.define(params@[i as int].lexeme@, values[i as int]),
                    ));
                    i = i + 1;
                }
            },
            _ => {},
        }
        self.push(Frame::Call);
        self.push(
            Frame::Sequence {
                source: Source::Body { stmt: func.declaration },
                next: 0,
                environment: inner,
            },
        );
        self.go(Control::Complete)
    }

    /// Asks the host to do what a native function stands for.
    pub fn native(&mut self, function: Native) -> (action: Action)
        requires
            old(self).wf(),
        ensures
            final(self).wf(),
            final(self).continues(old(self)),
            (Stepped { machine: final(self)@, action: action@ }) == machine::native(
                old(self)@,
                function,
            ),
    {
        match function {
            Native::Clock => self.ask(Control::AwaitNumber, Action::Clock),
        }
    }

    /// Prints a value: a text at once, a number once the host has written
    /// its numeral.
    fn visit_print_stmt(&mut self, value: LoxValue) -> (action: Action)
        requires
            old(self).wf(),
        ensures
            final(self).wf(),
            final(self).continues(old(self)),
            (Stepped { machine: final(self)@, action: action@ }) == machine::resume(
                old(self).ast@,
                old(self)@,
                FrameView::Print,
                value@,
            ),
    {
        match value {
            LoxValue::Number(number) => self.ask(Control::AwaitText, Action::Format { number }),
            _ => {
                let mut text = self.stringify(&value);
                text.push('\n');
                self.ask(Control::Complete, Action::Print { text })
            },
        }
    }

    /// Defines the variable of a declaration with the value of its
    /// initializer.
    fn visit_var_stmt(&mut self, stmt: usize, environment: usize, value: LoxValue) -> (action:
        Action)
        requires
            old(self).wf(),
            frame_ok(
                old(self).ast@,
                old(self)@.environments.len(),
                FrameView::Var { stmt, environment },
            ),
        ensures
            final(self).wf(),
            final(self).continues(old(self)),
            (Stepped { machine: final(self)@, action: action@ }) == machine::resume(
                old(self).ast@,
                old(self)@,
                FrameView::Var { stmt, environment },
                value@,
            ),
    {
        assert(self.ast@.stmts[stmt as int] == self.ast.stmts@[stmt as int]@);
        match &self.ast.stmts[stmt] {
            Stmt::Var { name, initializer: _ } => {
                let lexeme = name.lexeme.clone();
                self.define(environment, lexeme, value);
                self.go(Control::Complete)
            },
            _ => self.fail(Self::lost()),
        }
    }

    /// Goes on after the condition of an `if`: with the branch that the
    /// condition picks.
    fn visit_if_stmt(&mut self, stmt: usize, environment: usize, value: LoxValue) -> (action:
        Action)
        requires
            old(self).wf(),
            frame_ok(
                old(self).ast@,
                old(self)@.environments.len(),
                FrameView::If { stmt, environment },
            ),
        ensures
            final(self).wf(),
            final(self).continues(old(self)),
            (Stepped { machine: final(self)@, action: action@ }) == machine::resume(
                old(self).ast@,
                old(self)@,
                FrameView::If { stmt, environment },
                value@,
            ),
    {
        assert(self.ast@.stmts[stmt as int] == self.ast.stmts@[stmt as int]@);
        proof {
            crate::ast::lemma_stmt_below(self.ast@, stmt as int);
        }
        match &self.ast.stmts[stmt] {
            Stmt::If { condition: _, then_branch, else_branch } => {
                if value.is_truthy() {
                    let then_branch = *then_branch;
                    self.go(Control::Execute { stmt: then_branch, environment })
                } else {
                    match else_branch {
                        Some(else_branch) => {
                            let else_branch = *else_branch;
                            self.go(Control::Execute { stmt: else_branch, environment })
                        },
                        None => self.go(Control::Complete),
                    }
                }
            },
            _ => self.fail(Self::lost()),
        }
    }

    /// Goes on after the condition of a `while`: with the body if the
    /// condition holds.
    fn visit_while_stmt(&mut self, stmt: usize, environment: usize, value: LoxValue) -> (action:
        Action)
        requires
            old(self).wf(),
            frame_ok(
                old(self).ast@,
                old(self)@.environments.len(),
                FrameView::WhileCondition { stmt, environment },
            ),
        ensures
            final(self).wf(),
            final(self).continues(old(self)),
            (Stepped { machine: final(self)@, action: action@ }) == machine::resume(
                old(self).ast@,
                old(self)@,
                FrameView::WhileCondition { stmt, environment },
                value@,
            ),
    {
        assert(self.ast@.stmts[stmt as int] == self.ast.stmts@[stmt as int]@);
        proof {
            crate::ast::lemma_stmt_below(self.ast@, stmt as int);
        }
        match &self.ast.stmts[stmt] {
            Stmt::While { condition: _, body } => {
                if value.is_truthy() {
                    let body = *body;
                    self.push(Frame::WhileBody { stmt, environment });
                    self.go(Control::Execute { stmt: body, environment })
                } else {
                    self.go(Control::Complete)
                }
            },
            _ => self.fail(Self::lost()),
        }
    }

    /// Starts a `return`: the value is on its way to the nearest call.
    fn visit_return_stmt(&mut self, stmt: usize, value: LoxValue) -> (action: Action)
        requires
            old(self).wf(),
            frame_ok(
                old(self).ast@,
                old(self)@.environments.len(),
                FrameView::Return { stmt },
            ),
        ensures
            final(self).wf(),
            final(self).continues(old(self)),
            (Stepped { machine: final(self)@, action: action@ }) == machine::resume(
                old(self).ast@,
                old(self)@,
                FrameView::Return { stmt },
                value@,
            ),
    {
        self.go(Control::Unwind { value, stmt })
    }

    /// Hands a value to the frame that waited for it.
    fn resume(&mut self, frame: Frame, value: LoxValue) -> (action: Action)
        requires
            old(self).wf(),
            frame_ok(old(self).ast@, old(self)@.environments.len(), frame@),
            owned_by(frame@) matches Some(e) ==> frames_below(old(self)@.frames, e as int),
        ensures
            final(self).wf(),
            final(self).continues(old(self)),
            (Stepped { machine: final(self)@, action: action@ }) == machine::resume(
                old(self).ast@,
                old(self)@,
                frame@,
                value@,
            ),
    {
        match frame {
            Frame::Unary { expr } => self.resume_unary(expr, value),
            Frame::BinaryRight { expr, environment } => self.resume_binary_right(
                expr,
                environment,
                value,
            ),
            Frame::BinaryApply { expr, left } => self.resume_binary_apply(expr, left, value),
            Frame::Logical { expr, environment } => self.visit_logical_expr(
                expr,
                environment,
                value,
            ),
            Frame::Assign { expr, environment } => self.visit_assign_expr(expr, environment, value),
            Frame::Callee { expr, environment } => self.visit_call_expr(expr, environment, value),
            Frame::Arguments { expr, environment, callee, values } => self.resume_arguments(
                expr,
                environment,
                callee,
                values,
                value,
            ),
            Frame::Call => self.deliver(value),
            Frame::Expression => self.visit_expression_stmt(),
            Frame::Print => self.visit_print_stmt(value),
            Frame::Var { stmt, environment } => self.visit_var_stmt(stmt, environment, value),
            Frame::If { stmt, environment } => self.visit_if_stmt(stmt, environment, value),
            Frame::WhileCondition { stmt, environment } => self.visit_while_stmt(
                stmt,
                environment,
                value,
            ),
            Frame::Return { stmt } => self.visit_return_stmt(stmt, value),
            Frame::Initializer { source, next, environment } => self.initialize(
                source,
                next,
                environment,
                value,
            ),
            _ => self.fail(Self::lost()),
        }
    }

    /// Ends an expression statement: its value is dropped.
    fn visit_expression_stmt(&mut self) -> (action: Action)
        requires
            old(self).wf(),
        ensures
            final(self).wf(),
            final(self).continues(old(self)),
            (Stepped { machine: final(self)@, action: action@ }) == machine::go(
                old(self)@,
                ControlView::Complete,
            ),
    {
        self.go(Control::Complete)
    }

    /// Gives up the environment that was made for a list of statements,
    /// if it is the last one made and no function value keeps it.
    fn release(&mut self, source: Source, environment: usize)
        requires
            old(self).wf(),
            old(self).control is Idle,
            environment < old(self)@.environments.len(),
            machine::own(source, environment) is Some ==> frames_below(
                old(self)@.frames,
                environment as int,
            ),
        ensures
            final(self).wf(),
            final(self).continues(old(self)),
            final(self)@ == machine::released(old(self)@, source, environment),
    {
        match source {
            Source::Program => {},
            _ => {
                let count = self.environments.len();
                if environment != 0 && environment == count - 1 && !self.environments.captured(
                    environment,
                ) {
                    self.environments.release();
                    proof {
                        let ast = self.ast@;
                        let before = old(self)@;
                        let after = self@;
                        assert forall|h: int| 0 <= h < after.functions.len() implies machine::function_ok(
                            ast,
                            after.environments.len(),
                            #[trigger] after.functions[h],
                        ) by {
                            assert(machine::function_ok(
                                ast,
                                before.environments.len(),
                                before.functions[h],
                            ));
                        }
                        assert forall|i: int| 0 <= i < after.frames.len() implies frame_ok(
                            ast,
                            after.environments.len(),
                            #[trigger] after.frames[i],
                        ) by {
                            assert(frame_ok(ast, before.environments.len(), before.frames[i]));
                        }
                    }
                }
            },
        }
    }

    /// The statement at the place `next` of a list, if the list is that
    /// long.
    fn statement_at(&self, source: Source, next: usize) -> (r: Option<usize>)
        requires
            self.wf(),
            machine::source_ok(self.ast@, source),
        ensures
            r == (if next < machine::statements_of(self.ast@, self@, source).len() {
                Some(machine::statements_of(self.ast@, self@, source)[next as int])
            } else {
                None
            }),
            r matches Some(stmt) ==> stmt < self.ast@.stmts.len() && next < usize::MAX,
    {
        match source {
            Source::Program => {
                if next < self.program.len() {
                    Some(self.program[next])
                } else {
                    None
                }
            },
            Source::Block { stmt } => {
                assert(self.ast@.stmts[stmt as int] == self.ast.stmts@[stmt as int]@);
                proof {
                    crate::ast::lemma_stmt_below(self.ast@, stmt as int);
                }
                match &self.ast.stmts[stmt] {
                    Stmt::Block { statements } => {
                        if next < statements.len() {
                            Some(statements[next])
                        } else {
                            None
                        }
                    },
                    _ => None,
                }
            },
            Source::Body { stmt } => {
                assert(self.ast@.stmts[stmt as int] == self.ast.stmts@[stmt as int]@);
                proof {
                    crate::ast::lemma_stmt_below(self.ast@, stmt as int);
                }
                match &self.ast.stmts[stmt] {
                    Stmt::Function { name: _, params: _, body } => {
                        if next < body.len() {
                            Some(body[next])
                        } else {
                            None
                        }
                    },
                    _ => None,
                }
            },
        }
    }

    /// Goes on with the next statement of a list: see
    /// [`machine::sequence`].
    fn visit_block_stmt(&mut self, source: Source, next: usize, environment: usize) -> (action:
        Action)
        requires
            old(self).wf(),
            old(self).control is Idle,
            frame_ok(
                old(self).ast@,
                old(self)@.environments.len(),
                FrameView::Sequence { source, next, environment },
            ),
            machine::own(source, environment) is Some ==> frames_below(
                old(self)@.frames,
                environment as int,
            ),
        ensures
            final(self).wf(),
            final(self).continues(old(self)),
            (Stepped { machine: final(self)@, action: action@ }) == machine::sequence(
                old(self).ast@,
                old(self)@,
                source,
                next,
                environment,
            ),
    {
        match self.statement_at(source, next) {
            Some(stmt) => {
                assert(self.ast@.stmts[stmt as int] == self.ast.stmts@[stmt as int]@);
                proof {
                    crate::ast::lemma_stmt_below(self.ast@, stmt as int);
                }
                match &self.ast.stmts[stmt] {
                    Stmt::Var { name: _, initializer } => {
                        let initializer = *initializer;
                        self.evaluate_with(
                            Frame::Initializer { source, next, environment },
                            initializer,
                            environment,
                        )
                    },
                    Stmt::Function { .. } => {
                        self.declare(stmt, environment);
                        self.push(Frame::Sequence { source, next: next + 1, environment });
                        self.go(Control::Complete)
                    },
                    _ => {
                        self.push(Frame::Sequence { source, next: next + 1, environment });
                        self.go(Control::Execute { stmt, environment })
                    },
                }
            },
            None => {
                match source {
                    Source::Program => self.finish(),
                    _ => {
                        self.release(source, environment);
                        self.go(Control::Complete)
                    },
                }
            },
        }
    }

    /// Defines the variable that statement `next` of a list declares, with
    /// the value of its initializer, and goes on behind it.
    fn initialize(&mut self, source: Source, next: usize, environment: usize, value: LoxValue)
        -> (action: Action)
        requires
            old(self).wf(),
            frame_ok(
                old(self).ast@,
                old(self)@.environments.len(),
                FrameView::Initializer { source, next, environment },
            ),
            machine::own(source, environment) is Some ==> frames_below(
                old(self)@.frames,
                environment as int,
            ),
        ensures
            final(self).wf(),
            final(self).continues(old(self)),
            (Stepped { machine: final(self)@, action: action@ }) == machine::resume(
                old(self).ast@,
                old(self)@,
                FrameView::Initializer { source, next, environment },
                value@,
            ),
    {
        match self.statement_at(source, next) {
            Some(stmt) => {
                assert(self.ast@.stmts[stmt as int] == self.ast.stmts@[stmt as int]@);
                match &self.ast.stmts[stmt] {
                    Stmt::Var { name, initializer: _ } => {
                        let lexeme = name.lexeme.clone();
                        self.define(environment, lexeme, value);
                        self.push(Frame::Sequence { source, next: next + 1, environment });
                        self.go(Control::Complete)
                    },
                    _ => self.fail(Self::lost()),
                }
            },
            None => self.fail(Self::lost()),
        }
    }

    /// Goes on after a statement is done, with the frame that waited for
    /// it.
    fn proceed(&mut self, frame: Frame) -> (action: Action)
        requires
            old(self).wf(),
            old(self).control is Idle,
            frame_ok(old(self).ast@, old(self)@.environments.len(), frame@),
            owned_by(frame@) matches Some(e) ==> frames_below(old(self)@.frames, e as int),
        ensures
            final(self).wf(),
            final(self).continues(old(self)),
            (Stepped { machine: final(self)@, action: action@ }) == machine::proceed(
                old(self).ast@,
                old(self)@,
                frame@,
            ),
    {
        match frame {
            Frame::Sequence { source, next, environment } => self.visit_block_stmt(
                source,
                next,
                environment,
            ),
            Frame::Call => self.deliver(LoxValue::Nil),
            Frame::WhileBody { stmt, environment } => {
                assert(self.ast@.stmts[stmt as int] == self.ast.stmts@[stmt as int]@);
                proof {
                    crate::ast::lemma_stmt_below(self.ast@, stmt as int);
                }
                match &self.ast.stmts[stmt] {
                    Stmt::While { condition, body: _ } => {
                        let condition = *condition;
                        self.evaluate_with(
                            Frame::WhileCondition { stmt, environment },
                            condition,
                            environment,
                        )
                    },
                    _ => self.fail(Self::lost()),
                }
            },
            _ => self.fail(Self::lost()),
        }
    }

    /// The error for a `return` that is in no function.
    fn stray_return(&self, stmt: usize) -> (e: RuntimeError)
        requires
            self.wf(),
            stmt < self.ast@.stmts.len(),
        ensures
            e@ == machine::stray_return(self.ast@, stmt),
    {
        assert(self.ast@.stmts[stmt as int] == self.ast.stmts@[stmt as int]@);
        match &self.ast.stmts[stmt] {
            Stmt::Return { keyword, value: _ } => RuntimeError::new_token(
                keyword,
                text("Return called outside of function"),
            ),
            _ => Self::lost(),
        }
    }

    /// Takes a `return` one frame further towards the call it ends.
    fn unwind(&mut self, frame: Frame, value: LoxValue, stmt: usize) -> (action: Action)
        requires
            old(self).wf(),
            old(self).control is Idle,
            stmt < old(self).ast@.stmts.len(),
            frame_ok(old(self).ast@, old(self)@.environments.len(), frame@),
            owned_by(frame@) matches Some(e) ==> frames_below(old(self)@.frames, e as int),
        ensures
            final(self).wf(),
            final(self).continues(old(self)),
            (Stepped { machine: final(self)@, action: action@ }) == machine::unwind(
                old(self)@,
                frame@,
                value@,
                stmt,
            ),
    {
        match frame {
            Frame::Call => self.deliver(value),
            Frame::Sequence { source, next: _, environment } => {
                self.release(source, environment);
                self.go(Control::Unwind { value, stmt })
            },
            Frame::Initializer { source, next: _, environment } => {
                self.release(source, environment);
                self.go(Control::Unwind { value, stmt })
            },
            _ => self.go(Control::Unwind { value, stmt }),
        }
    }

    /// Takes the control, leaving the machine idle.
    fn take_control(&mut self) -> (control: Control)
        requires
            old(self).wf(),
        ensures
            final(self).wf(),
            final(self).continues(old(self)),
            control == old(self).control,
            control_ok(final(self).ast@, final(self)@.environments.len(), control@),
            final(self)@ == old(self)@.with_control(ControlView::Idle),
    {
        let mut control = Control::Idle;
        core::mem::swap(&mut control, &mut self.control);
        control
    }

    /// Does one step: takes the host's answer to the last request and
    /// gives the next request.
    pub fn step(&mut self, event: Event) -> (action: Action)
        requires
            old(self).wf(),
        ensures
            final(self).wf(),
            final(self).continues(old(self)),
            (Stepped { machine: final(self)@, action: action@ }) == machine::step(
                old(self).ast@,
                old(self)@,
                event@,
            ),
            forall|seen: Set<usize>| #[trigger]
                sound(old(self).ast@, old(self)@, seen) ==> sound(
                    final(self).ast@,
                    final(self)@,
                    seen,
                ),
    {
        let action = self.advance(event);
        proof {
            vstd::std_specs::vec::axiom_spec_len(&self.environments.list);
            vstd::std_specs::vec::axiom_spec_len(&self.functions);
            assert forall|seen: Set<usize>| #[trigger]
                sound(old(self).ast@, old(self)@, seen) implies sound(
                self.ast@,
                self@,
                seen,
            ) by {
                lemma_step_sound(old(self).ast@, old(self)@, seen, event@);
            }
        }
        action
    }

    /// Does one step.
    fn advance(&mut self, event: Event) -> (action: Action)
        requires
            old(self).wf(),
        ensures
            final(self).wf(),
            final(self).continues(old(self)),
            (Stepped { machine: final(self)@, action: action@ }) == machine::step(
                old(self).ast@,
                old(self)@,
                event@,
            ),
    {
        let control = self.take_control();
        match control {
            Control::Idle => Action::Finished,
            Control::Evaluate { expr, environment } => self.evaluate(expr, environment),
            Control::Execute { stmt, environment } => self.execute(stmt, environment),
            Control::Deliver { value } => {
                if self.frames.len() == 0 {
                    self.fail(Self::lost())
                } else {
                    let frame = self.pop();
                    self.resume(frame, value)
                }
            },
            Control::Complete => {
                if self.frames.len() == 0 {
                    self.finish()
                } else {
                    let frame = self.pop();
                    self.proceed(frame)
                }
            },
            Control::Unwind { value, stmt } => {
                if self.frames.len() == 0 {
                    let error = self.stray_return(stmt);
                    self.fail(error)
                } else {
                    let frame = self.pop();
                    self.unwind(frame, value, stmt)
                }
            },
            Control::AwaitNumber => match event {
                Event::Number(n) => self.deliver(LoxValue::Number(n)),
                _ => self.fail(Self::misfit()),
            },
            Control::AwaitText => match event {
                Event::Text(numeral) => {
                    let mut text = stringify_double(&numeral);
                    text.push('\n');
                    self.ask(Control::Complete, Action::Print { text })
                },
                _ => self.fail(Self::misfit()),
            },
        }
    }

    /// Does steps until the host is asked for something, but `budget`
    /// steps at most. The result is `Continue` if the budget ran out
    /// first.
    pub fn run(&mut self, event: Event, budget: usize) -> (action: Action)
        requires
            old(self).wf(),
        ensures
            final(self).wf(),
            final(self).continues(old(self)),
            (Stepped { machine: final(self)@, action: action@ }) == machine::run(
                old(self).ast@,
                old(self)@,
                event@,
                budget as nat,
            ),
            forall|seen: Set<usize>| #[trigger]
                sound(old(self).ast@, old(self)@, seen) ==> sound(
                    final(self).ast@,
                    final(self)@,
                    seen,
                ),
    {
        let ghost first = event@;
        let mut pending = event;
        let mut left = budget;
        while left > 0
            invariant
                self.wf(),
                self.continues(old(self)),
                first == event@,
                forall|seen: Set<usize>| #[trigger]
                    sound(old(self).ast@, old(self)@, seen) ==> sound(self.ast@, self@, seen),
                machine::run(self.ast@, self@, pending@, left as nat) == machine::run(
                    old(self).ast@,
                    old(self)@,
                    first,
                    budget as nat,
                ),
            decreases left,
        {
            let ghost before = self@;
            let ghost given = pending@;
            let action = self.step(pending);
            assert(machine::step(self.ast@, before, given) == (Stepped {
                machine: self@,
                action: action@,
            }));
            match action {
                Action::Continue => {},
                _ => {
                    assert(!(action@ is Continue));
                    assert(machine::run(self.ast@, before, given, left as nat) == (Stepped {
                        machine: self@,
                        action: action@,
                    }));
                    return action;
                },
            }
            assert(action@ is Continue);
            pending = Event::Nothing;
            left = left - 1;
        }
        Action::Continue
    }
}

/// The error for an operand that is no number.
pub fn invalid_operand_number(operator: &Token) -> (e: RuntimeError)
    ensures
        e@ == machine::not_a_number(*operator),
{
    RuntimeError::new_token(operator, text("Operand must be a number."))
}

/// The error for a call of what is no function.
pub fn not_callable(paren: &Token) -> (e: RuntimeError)
    ensures
        e@ == machine::not_callable(*paren),
{
    RuntimeError::new_token(paren, text("Can only call functions and classes."))
}

} // verus!
