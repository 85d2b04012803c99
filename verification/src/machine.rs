//! What the interpreter does, step by step, as functions on its state.
//!
//! The interpreter is a machine that the host drives. Its state is a
//! control (what to do next), a stack of frames (what to do with the
//! result), the environments, and the function values made so far. One
//! step takes the host's answer to the last request and gives the next
//! state and the next request. The interpreter's methods are verified
//! against these functions.

use vstd::prelude::*;

use crate::ast::AstView;
use crate::environment;
use crate::environment::EnvironmentView;
use crate::expr::{all_below, ExprView};
use crate::interpreter::{failure, failure_at, RuntimeErrorView};
use crate::lox_function::LoxFunction;
use crate::lox_type::{
    number_equal, number_less, number_negated, truthy, values_equal, without_point_zero, Value,
};
use crate::native_function::Native;
use crate::stmt::StmtView;
use crate::text::decimal;
use crate::token::{Literal, Token, TokenType};

verus! {

/// A list of statements that run one after the other in one environment.
#[derive(Debug, Clone, Copy, PartialEq, Eq, Structural)]
pub enum Source {
    /// The statements of the program.
    Program,
    /// The statements of a block.
    Block { stmt: usize },
    /// The body of a function.
    Body { stmt: usize },
}

/// What is left to do with a result.
pub enum FrameView {
    /// Apply the operator of the unary expression to the value.
    Unary { expr: usize },
    /// The value is the left operand; evaluate the right one.
    BinaryRight { expr: usize, environment: usize },
    /// The value is the right operand; apply the operator.
    BinaryApply { expr: usize, left: Value },
    /// The value is the left operand of `and` or `or`.
    Logical { expr: usize, environment: usize },
    /// Assign the value to the variable.
    Assign { expr: usize, environment: usize },
    /// The value is what is called; evaluate the arguments.
    Callee { expr: usize, environment: usize },
    /// The value is the next argument.
    Arguments { expr: usize, environment: usize, callee: Value, values: Seq<Value> },
    /// The boundary of a call: a `return` stops here.
    Call,
    /// Drop the value of an expression statement.
    Expression,
    /// Print the value.
    Print,
    /// Define the variable with the value.
    Var { stmt: usize, environment: usize },
    /// The value is the condition of the `if`.
    If { stmt: usize, environment: usize },
    /// The value is the condition of the `while`.
    WhileCondition { stmt: usize, environment: usize },
    /// The body of the `while` has run; test the condition again.
    WhileBody { stmt: usize, environment: usize },
    /// Run the statements of the list from `next` on.
    Sequence { source: Source, next: usize, environment: usize },
    /// The value is the initializer of the variable that statement `next`
    /// of the list declares; go on behind it.
    Initializer { source: Source, next: usize, environment: usize },
    /// The value is what the `return` statement returns.
    Return { stmt: usize },
}

/// What to do next.
pub enum ControlView {
    /// Nothing: no program is running.
    Idle,
    /// Evaluate the expression in the environment.
    Evaluate { expr: usize, environment: usize },
    /// Execute the statement in the environment.
    Execute { stmt: usize, environment: usize },
    /// Hand the value to the top frame.
    Deliver { value: Value },
    /// A statement is done; the top frame goes on.
    Complete,
    /// A `return` is under way to the nearest call.
    Unwind { value: Value, stmt: usize },
    /// Take a number from the host as the value of an expression.
    AwaitNumber,
    /// Take the numeral of a number from the host and print it.
    AwaitText,
}

/// What the interpreter asks of the host.
pub enum ActionView {
    /// Nothing; step again.
    Continue,
    /// Write the text to the output, then step again.
    Print { text: Seq<char> },
    /// Answer with the number that the decimal numeral stands for.
    ParseNumber { text: Seq<char> },
    /// Answer with the result of the operation on the two numbers.
    Arithmetic { operator: TokenType, left: u64, right: u64 },
    /// Answer with the decimal numeral of the number.
    Format { number: u64 },
    /// Answer with the time in milliseconds.
    Clock,
    /// The program has ended.
    Finished,
    /// The program has stopped on an error.
    Failed { error: RuntimeErrorView },
}

/// What the host answers.
pub enum EventView {
    /// No request was open.
    Nothing,
    Number(u64),
    Text(Seq<char>),
}

/// The state of the interpreter.
pub struct Machine {
    pub environments: Seq<EnvironmentView>,
    /// The function values made so far.
    pub functions: Seq<LoxFunction>,
    /// The distances that the resolver found, by expression.
    pub locals: Map<usize, usize>,
    /// The statements of the program that runs.
    pub program: Seq<usize>,
    pub frames: Seq<FrameView>,
    pub control: ControlView,
}

/// The outcome of a step.
pub struct Stepped {
    pub machine: Machine,
    pub action: ActionView,
}

impl Machine {
    /// The machine with `control` as what to do next.
    pub open spec fn with_control(self, control: ControlView) -> Machine {
        Machine { control, ..self }
    }

    /// The machine with `frame` on top of its frames.
    pub open spec fn pushed(self, frame: FrameView) -> Machine {
        Machine { frames: self.frames.push(frame), ..self }
    }

    /// The machine without its top frame.
    pub open spec fn popped(self) -> Machine {
        Machine { frames: self.frames.drop_last(), ..self }
    }

    /// The machine with `environments` for its environments.
    pub open spec fn with_environments(self, environments: Seq<EnvironmentView>) -> Machine {
        Machine { environments, ..self }
    }

    /// The machine with nothing left to run.
    pub open spec fn stopped(self) -> Machine {
        Machine { frames: Seq::empty(), control: ControlView::Idle, ..self }
    }
}

/// The machine goes on with `control`.
pub open spec fn go(m: Machine, control: ControlView) -> Stepped {
    Stepped { machine: m.with_control(control), action: ActionView::Continue }
}

/// The machine hands `value` to the top frame.
pub open spec fn deliver(m: Machine, value: Value) -> Stepped {
    go(m, ControlView::Deliver { value })
}

/// The machine keeps `frame` and evaluates `expr`.
pub open spec fn evaluate_with(m: Machine, frame: FrameView, expr: usize, environment: usize)
    -> Stepped {
    go(m.pushed(frame), ControlView::Evaluate { expr, environment })
}

/// The machine stops on `error`.
pub open spec fn fail(m: Machine, error: RuntimeErrorView) -> Stepped {
    Stepped { machine: m.stopped(), action: ActionView::Failed { error } }
}

/// The machine asks the host for `action`, whose answer `control` takes.
pub open spec fn ask(m: Machine, control: ControlView, action: ActionView) -> Stepped {
    Stepped { machine: m.with_control(control), action }
}

/// The error for a state that no run of a program leads to.
pub open spec fn lost() -> RuntimeErrorView {
    failure("The interpreter has lost its place."@, 0)
}

/// The error for an answer of the host that is not what was asked for.
pub open spec fn misfit() -> RuntimeErrorView {
    failure("The host's answer does not fit the request."@, 0)
}

/// The error for an operand that is no number.
pub open spec fn not_a_number(operator: Token) -> RuntimeErrorView {
    failure_at(operator, "Operand must be a number."@)
}

/// The value of a variable: from the environment at the distance that the
/// resolver found for this expression, or from the globals if it found
/// none. Never both.
pub open spec fn look_up_variable(m: Machine, name: Token, expr: usize, environment: usize)
    -> Result<Value, RuntimeErrorView> {
    if m.locals.contains_key(expr) {
        environment::get_at(m.environments, environment, m.locals[expr], name)
    } else {
        environment::get(m.environments, 0, name)
    }
}

/// The outcome of a unary operator on a value.
pub open spec fn unary(operator: Token, right: Value) -> Result<Value, RuntimeErrorView> {
    if operator.kind == TokenType::MINUS {
        match right {
            Value::Number(n) => Ok(Value::Number(number_negated(n))),
            _ => Err(not_a_number(operator)),
        }
    } else if operator.kind == TokenType::BANG {
        Ok(Value::Boolean(!truthy(right)))
    } else {
        Err(failure_at(operator, "Missed Parser Error"@))
    }
}

/// The outcome of a binary operator on two values.
pub enum Operation {
    /// The result is this value.
    Done(Value),
    /// The result is what the host computes from the two numbers.
    Compute { operator: TokenType, left: u64, right: u64 },
    /// The operands do not fit the operator.
    Fail(RuntimeErrorView),
}

/// The outcome of an operator that takes two numbers, on their bits.
pub open spec fn numeric(kind: TokenType, a: u64, b: u64) -> Operation {
    if kind == TokenType::GREATER {
        Operation::Done(Value::Boolean(number_less(b, a)))
    } else if kind == TokenType::GREATER_EQUAL {
        Operation::Done(Value::Boolean(number_less(b, a) || number_equal(a, b)))
    } else if kind == TokenType::LESS {
        Operation::Done(Value::Boolean(number_less(a, b)))
    } else if kind == TokenType::LESS_EQUAL {
        Operation::Done(Value::Boolean(number_less(a, b) || number_equal(a, b)))
    } else {
        Operation::Compute { operator: kind, left: a, right: b }
    }
}

/// The operator takes two numbers and nothing else.
pub open spec fn takes_numbers(kind: TokenType) -> bool {
    kind == TokenType::MINUS || kind == TokenType::STAR || kind == TokenType::SLASH || kind
        == TokenType::GREATER || kind == TokenType::GREATER_EQUAL || kind == TokenType::LESS
        || kind == TokenType::LESS_EQUAL
}

/// The outcome of a binary operator on two values.
///
/// `+` adds two numbers or joins two strings. `-`, `*`, `/` and the
/// comparisons take two numbers. `==` and `!=` take any two values.
pub open spec fn binary(operator: Token, left: Value, right: Value) -> Operation {
    let kind = operator.kind;
    if kind == TokenType::PLUS {
        match (left, right) {
            (Value::Number(a), Value::Number(b)) => Operation::Compute {
                operator: kind,
                left: a,
                right: b,
            },
            (Value::LoxString(a), Value::LoxString(b)) => Operation::Done(Value::LoxString(a + b)),
            _ => Operation::Fail(
                failure_at(operator, "Operands must be two numbers or two strings."@),
            ),
        }
    } else if takes_numbers(kind) {
        match (left, right) {
            (Value::Number(a), Value::Number(b)) => numeric(kind, a, b),
            _ => Operation::Fail(not_a_number(operator)),
        }
    } else if kind == TokenType::EQUAL_EQUAL {
        Operation::Done(Value::Boolean(values_equal(left, right)))
    } else if kind == TokenType::BANG_EQUAL {
        Operation::Done(Value::Boolean(!values_equal(left, right)))
    } else {
        Operation::Fail(failure_at(operator, "Missed Parser Error"@))
    }
}

/// `and` and `or` give their left operand without looking at the right one
/// where the left one decides: `or` if it is truthy, `and` if it is not.
pub open spec fn decided(kind: TokenType, left: Value) -> bool {
    if kind == TokenType::OR {
        truthy(left)
    } else if kind == TokenType::AND {
        !truthy(left)
    } else {
        false
    }
}

/// The name of the function value `handle`, if it is one of the machine's.
pub open spec fn function_name(ast: AstView, m: Machine, handle: usize) -> Option<Seq<char>> {
    if handle < m.functions.len() && m.functions[handle as int].declaration < ast.stmts.len() {
        match ast.stmts[m.functions[handle as int].declaration as int] {
            StmtView::Function { name, params, body } => Some(name.lexeme@),
            _ => None,
        }
    } else {
        None
    }
}

/// The text that `print` writes for a value that is no number. The text
/// of a number is the host's to give, so nothing is said of it here.
pub open spec fn shown(ast: AstView, m: Machine, value: Value) -> Seq<char>
    recommends
        !(value is Number),
{
    match value {
        Value::Boolean(b) => if b {
            "true"@
        } else {
            "false"@
        },
        Value::Number(n) => arbitrary(),
        Value::LoxString(s) => s,
        Value::Nil => "nil"@,
        Value::Function(handle) => match function_name(ast, m, handle) {
            Some(name) => "<fn "@ + name + ">"@,
            None => "<fn>"@,
        },
        Value::Native(f) => "<native fn>"@,
    }
}

/// The line that `print` writes for the text of a value.
pub open spec fn line(text: Seq<char>) -> Seq<char> {
    text.push('\n')
}

/// The value of a literal that is no number. The value of a number is
/// the host's to find, so nothing is said of it here.
pub open spec fn constant(value: Literal) -> Value
    recommends
        !(value is Number),
{
    match value {
        Literal::Nil => Value::Nil,
        Literal::Boolean(b) => Value::Boolean(b),
        Literal::Number(text) => arbitrary(),
        Literal::Text(text) => Value::LoxString(text@),
    }
}

/// The error for a call with the wrong number of arguments.
pub open spec fn arity_mismatch(paren: Token, arity: u32, given: nat) -> RuntimeErrorView {
    failure_at(
        paren,
        "Expected "@ + decimal(arity as nat) + " arguments but got "@ + decimal(given) + "."@,
    )
}

/// The error for a call of what is no function.
pub open spec fn not_callable(paren: Token) -> RuntimeErrorView {
    failure_at(paren, "Can only call functions and classes."@)
}

/// The environment with the parameters `params[from..]` bound to the
/// values `values[from..]`, one by one.
pub open spec fn bind_params(
    e: EnvironmentView,
    params: Seq<Token>,
    values: Seq<Value>,
    from: nat,
) -> EnvironmentView
    decreases params.len() - from,
{
    if from >= params.len() || from >= values.len() {
        e
    } else {
        bind_params(
            e.define(params[from as int].lexeme@, values[from as int]),
            params,
            values,
            from + 1,
        )
    }
}

/// The parameters of the function that the statement `stmt` declares.
pub open spec fn params_of(ast: AstView, stmt: usize) -> Seq<Token> {
    match ast.stmts[stmt as int] {
        StmtView::Function { name, params, body } => params,
        _ => Seq::empty(),
    }
}

/// The call of the function value `f` with `values`: a new environment
/// inside the function's closure binds the parameters to the values, and the
/// body runs there, behind the boundary of the call.
pub open spec fn enter(ast: AstView, m: Machine, f: LoxFunction, values: Seq<Value>) -> Stepped {
    let inner = m.environments.len() as usize;
    let fresh = environment::fresh(Some(f.closure));
    let bound = bind_params(fresh, params_of(ast, f.declaration), values, 0);
    go(
        m.with_environments(m.environments.push(bound)).pushed(FrameView::Call).pushed(
            FrameView::Sequence {
                source: Source::Body { stmt: f.declaration },
                next: 0,
                environment: inner,
            },
        ),
        ControlView::Complete,
    )
}

/// The call of a native function: the host is asked for its result.
pub open spec fn native(m: Machine, function: Native) -> Stepped {
    match function {
        Native::Clock => ask(m, ControlView::AwaitNumber, ActionView::Clock),
    }
}

/// The call of `callee` with `values`, at the closing parenthesis `paren`.
/// What is called must be a function, and the number of values its arity.
pub open spec fn call(ast: AstView, m: Machine, paren: Token, callee: Value, values: Seq<Value>)
    -> Stepped {
    match callee {
        Value::Function(handle) => if handle < m.functions.len() {
            let f = m.functions[handle as int];
            if values.len() != f.arity {
                fail(m, arity_mismatch(paren, f.arity, values.len()))
            } else {
                enter(ast, m, f, values)
            }
        } else {
            fail(m, not_callable(paren))
        },
        Value::Native(f) => if values.len() != f.arity {
            fail(m, arity_mismatch(paren, f.arity, values.len()))
        } else {
            native(m, f.function)
        },
        _ => fail(m, not_callable(paren)),
    }
}

/// What a run of at most `budget` steps makes of the machine: it stops at
/// the first request to the host.
pub open spec fn run(ast: AstView, m: Machine, event: EventView, budget: nat) -> Stepped
    decreases budget,
{
    if budget == 0 {
        Stepped { machine: m, action: ActionView::Continue }
    } else {
        let next = step(ast, m, event);
        if next.action is Continue {
            run(ast, next.machine, EventView::Nothing, (budget - 1) as nat)
        } else {
            next
        }
    }
}

/// A step that starts the evaluation of the expression `expr`.
pub open spec fn evaluate(ast: AstView, m: Machine, expr: usize, environment: usize) -> Stepped {
    match ast.exprs[expr as int] {
        ExprView::Literal { value } => match value {
            Literal::Number(text) => ask(
                m,
                ControlView::AwaitNumber,
                ActionView::ParseNumber { text: text@ },
            ),
            _ => deliver(m, constant(value)),
        },
        ExprView::Grouping { expression } => go(
            m,
            ControlView::Evaluate { expr: expression, environment },
        ),
        ExprView::Unary { operator, right } => evaluate_with(
            m,
            FrameView::Unary { expr },
            right,
            environment,
        ),
        ExprView::Binary { left, operator, right } => evaluate_with(
            m,
            FrameView::BinaryRight { expr, environment },
            left,
            environment,
        ),
        ExprView::Logical { left, operator, right } => evaluate_with(
            m,
            FrameView::Logical { expr, environment },
            left,
            environment,
        ),
        ExprView::Variable { name } => match look_up_variable(m, name, expr, environment) {
            Ok(value) => deliver(m, value),
            Err(error) => fail(m, error),
        },
        ExprView::Assign { name, value } => evaluate_with(
            m,
            FrameView::Assign { expr, environment },
            value,
            environment,
        ),
        ExprView::Call { callee, paren, arguments } => evaluate_with(
            m,
            FrameView::Callee { expr, environment },
            callee,
            environment,
        ),
    }
}

/// The machine after the function declaration `stmt` has run in
/// `environment`: there is one more function value, which keeps that
/// environment, and the function's name is bound to it there.
pub open spec fn declare(ast: AstView, m: Machine, stmt: usize, environment: usize) -> Machine {
    match ast.stmts[stmt as int] {
        StmtView::Function { name, params, body } => Machine {
            functions: m.functions.push(
                LoxFunction { arity: params.len() as u32, declaration: stmt, closure: environment },
            ),
            environments: environment::capture(
                environment::define(
                    m.environments,
                    environment,
                    name.lexeme@,
                    Value::Function(m.functions.len() as usize),
                ),
                environment,
            ),
            ..m
        },
        _ => m,
    }
}

/// The environment that was made for the list of statements: a block
/// and the body of a function have one of their own, the program has
/// none.
pub open spec fn own(source: Source, environment: usize) -> Option<usize> {
    match source {
        Source::Program => None,
        _ => Some(environment),
    }
}

/// The machine after a list of statements has given up the environment
/// that was made for it. The environment goes if it is the last one that
/// was made and no function value keeps it; else it stays.
pub open spec fn released(m: Machine, source: Source, environment: usize) -> Machine {
    if own(source, environment) is Some && environment != 0 && environment + 1
        == m.environments.len() && !m.environments[environment as int].captured {
        m.with_environments(m.environments.drop_last())
    } else {
        m
    }
}

/// The statements of a list.
pub open spec fn statements_of(ast: AstView, m: Machine, source: Source) -> Seq<usize> {
    match source {
        Source::Program => m.program,
        Source::Block { stmt } => match ast.stmts[stmt as int] {
            StmtView::Block { statements } => statements,
            _ => Seq::empty(),
        },
        Source::Body { stmt } => match ast.stmts[stmt as int] {
            StmtView::Function { name, params, body } => body,
            _ => Seq::empty(),
        },
    }
}

/// A step that starts the execution of the statement `stmt`.
pub open spec fn execute(ast: AstView, m: Machine, stmt: usize, environment: usize) -> Stepped {
    match ast.stmts[stmt as int] {
        StmtView::Expression { expression } => evaluate_with(
            m,
            FrameView::Expression,
            expression,
            environment,
        ),
        StmtView::Print { expression } => evaluate_with(
            m,
            FrameView::Print,
            expression,
            environment,
        ),
        StmtView::Var { name, initializer } => evaluate_with(
            m,
            FrameView::Var { stmt, environment },
            initializer,
            environment,
        ),
        StmtView::Block { statements } => {
            let inner = m.environments.len() as usize;
            let fresh = environment::fresh(Some(environment));
            go(
                m.with_environments(m.environments.push(fresh)).pushed(
                    FrameView::Sequence { source: Source::Block { stmt }, next: 0, environment: inner },
                ),
                ControlView::Complete,
            )
        },
        StmtView::If { condition, then_branch, else_branch } => evaluate_with(
            m,
            FrameView::If { stmt, environment },
            condition,
            environment,
        ),
        StmtView::While { condition, body } => evaluate_with(
            m,
            FrameView::WhileCondition { stmt, environment },
            condition,
            environment,
        ),
        StmtView::Function { name, params, body } => go(
            declare(ast, m, stmt, environment),
            ControlView::Complete,
        ),
        StmtView::Return { keyword, value } => evaluate_with(
            m,
            FrameView::Return { stmt },
            value,
            environment,
        ),
    }
}

/// The assignment of `value` to the variable of the expression `expr`: in
/// the environment at the distance that the resolver found, or in the
/// globals if it found none.
pub open spec fn assign(m: Machine, name: Token, expr: usize, environment: usize, value: Value)
    -> Stepped {
    if m.locals.contains_key(expr) {
        match environment::ancestor(m.environments, environment, m.locals[expr] as nat) {
            Some(a) => deliver(
                m.with_environments(
                    environment::assign_at(m.environments, environment, m.locals[expr], name, value),
                ),
                value,
            ),
            None => fail(m, environment::undefined(name)),
        }
    } else {
        match environment::holder(m.environments, 0, name.lexeme@) {
            Some(h) => deliver(
                m.with_environments(environment::assign(m.environments, 0, name, value)),
                value,
            ),
            None => fail(m, environment::undefined(name)),
        }
    }
}

/// A step of a list of statements whose statement `next` declares a
/// variable, with the value of the initializer: the variable is defined
/// and the list goes on behind the declaration.
pub open spec fn initialize(
    ast: AstView,
    m: Machine,
    source: Source,
    next: usize,
    environment: usize,
    value: Value,
) -> Stepped {
    let list = statements_of(ast, m, source);
    if next < list.len() {
        match ast.stmts[list[next as int] as int] {
            StmtView::Var { name, initializer } => go(
                m.with_environments(
                    environment::define(m.environments, environment, name.lexeme@, value),
                ).pushed(FrameView::Sequence { source, next: (next + 1) as usize, environment }),
                ControlView::Complete,
            ),
            _ => fail(m, lost()),
        }
    } else {
        fail(m, lost())
    }
}

/// A step that hands `value` to `frame`, the frame that was on top of
/// `m`.
pub open spec fn resume(ast: AstView, m: Machine, frame: FrameView, value: Value) -> Stepped {
    match frame {
        FrameView::Unary { expr } => match ast.exprs[expr as int] {
            ExprView::Unary { operator, right } => match unary(operator, value) {
                Ok(result) => deliver(m, result),
                Err(error) => fail(m, error),
            },
            _ => fail(m, lost()),
        },
        FrameView::BinaryRight { expr, environment } => match ast.exprs[expr as int] {
            ExprView::Binary { left, operator, right } => evaluate_with(
                m,
                FrameView::BinaryApply { expr, left: value },
                right,
                environment,
            ),
            _ => fail(m, lost()),
        },
        FrameView::BinaryApply { expr, left } => match ast.exprs[expr as int] {
            ExprView::Binary { left: _, operator, right } => match binary(operator, left, value) {
                Operation::Done(result) => deliver(m, result),
                Operation::Compute { operator, left, right } => ask(
                    m,
                    ControlView::AwaitNumber,
                    ActionView::Arithmetic { operator, left, right },
                ),
                Operation::Fail(error) => fail(m, error),
            },
            _ => fail(m, lost()),
        },
        FrameView::Logical { expr, environment } => match ast.exprs[expr as int] {
            ExprView::Logical { left, operator, right } => if decided(operator.kind, value) {
                deliver(m, value)
            } else {
                go(m, ControlView::Evaluate { expr: right, environment })
            },
            _ => fail(m, lost()),
        },
        FrameView::Assign { expr, environment } => match ast.exprs[expr as int] {
            ExprView::Assign { name, value: _ } => assign(m, name, expr, environment, value),
            _ => fail(m, lost()),
        },
        FrameView::Callee { expr, environment } => match ast.exprs[expr as int] {
            ExprView::Call { callee, paren, arguments } => if arguments.len() == 0 {
                call(ast, m, paren, value, Seq::empty())
            } else {
                evaluate_with(
                    m,
                    FrameView::Arguments {
                        expr,
                        environment,
                        callee: value,
                        values: Seq::empty(),
                    },
                    arguments[0],
                    environment,
                )
            },
            _ => fail(m, lost()),
        },
        FrameView::Arguments { expr, environment, callee, values } => match ast.exprs[expr as int] {
            ExprView::Call { callee: _, paren, arguments } => {
                let values = values.push(value);
                if values.len() < arguments.len() {
                    evaluate_with(
                        m,
                        FrameView::Arguments { expr, environment, callee, values },
                        arguments[values.len() as int],
                        environment,
                    )
                } else {
                    call(ast, m, paren, callee, values)
                }
            },
            _ => fail(m, lost()),
        },
        FrameView::Call => deliver(m, value),
        FrameView::Expression => go(m, ControlView::Complete),
        FrameView::Print => match value {
            Value::Number(number) => ask(m, ControlView::AwaitText, ActionView::Format { number }),
            _ => ask(
                m,
                ControlView::Complete,
                ActionView::Print { text: line(shown(ast, m, value)) },
            ),
        },
        FrameView::Var { stmt, environment } => match ast.stmts[stmt as int] {
            StmtView::Var { name, initializer } => go(
                m.with_environments(
                    environment::define(m.environments, environment, name.lexeme@, value),
                ),
                ControlView::Complete,
            ),
            _ => fail(m, lost()),
        },
        FrameView::If { stmt, environment } => match ast.stmts[stmt as int] {
            StmtView::If { condition, then_branch, else_branch } => if truthy(value) {
                go(m, ControlView::Execute { stmt: then_branch, environment })
            } else {
                match else_branch {
                    Some(other) => go(m, ControlView::Execute { stmt: other, environment }),
                    None => go(m, ControlView::Complete),
                }
            },
            _ => fail(m, lost()),
        },
        FrameView::WhileCondition { stmt, environment } => match ast.stmts[stmt as int] {
            StmtView::While { condition, body } => if truthy(value) {
                go(
                    m.pushed(FrameView::WhileBody { stmt, environment }),
                    ControlView::Execute { stmt: body, environment },
                )
            } else {
                go(m, ControlView::Complete)
            },
            _ => fail(m, lost()),
        },
        FrameView::Return { stmt } => go(m, ControlView::Unwind { value, stmt }),
        FrameView::Initializer { source, next, environment } => initialize(
            ast,
            m,
            source,
            next,
            environment,
            value,
        ),
        _ => fail(m, lost()),
    }
}

/// A step of a list of statements that has run those before `next`.
///
/// A variable declaration has its initializer evaluated; the value comes
/// back to the list, which defines the variable. A function declaration
/// runs at once. Any other statement is executed, and the list goes on
/// when it is done. After the last statement a block or a body is done and
/// gives up its environment, and the program has ended.
pub open spec fn sequence(
    ast: AstView,
    m: Machine,
    source: Source,
    next: usize,
    environment: usize,
) -> Stepped {
    let list = statements_of(ast, m, source);
    let rest = FrameView::Sequence { source, next: (next + 1) as usize, environment };
    if next < list.len() {
        let stmt = list[next as int];
        match ast.stmts[stmt as int] {
            StmtView::Var { name, initializer } => evaluate_with(
                m,
                FrameView::Initializer { source, next, environment },
                initializer,
                environment,
            ),
            StmtView::Function { name, params, body } => go(
                declare(ast, m, stmt, environment).pushed(rest),
                ControlView::Complete,
            ),
            _ => go(m.pushed(rest), ControlView::Execute { stmt, environment }),
        }
    } else if source is Program {
        Stepped { machine: m.stopped(), action: ActionView::Finished }
    } else {
        go(released(m, source, environment), ControlView::Complete)
    }
}

/// A step after a statement is done, for `frame`, the frame that was on
/// top of `m`.
pub open spec fn proceed(ast: AstView, m: Machine, frame: FrameView) -> Stepped {
    match frame {
        FrameView::Sequence { source, next, environment } => sequence(
            ast,
            m,
            source,
            next,
            environment,
        ),
        FrameView::Call => deliver(m, Value::Nil),
        FrameView::WhileBody { stmt, environment } => match ast.stmts[stmt as int] {
            StmtView::While { condition, body } => evaluate_with(
                m,
                FrameView::WhileCondition { stmt, environment },
                condition,
                environment,
            ),
            _ => fail(m, lost()),
        },
        _ => fail(m, lost()),
    }
}

/// The error for a `return` that is in no function.
pub open spec fn stray_return(ast: AstView, stmt: usize) -> RuntimeErrorView {
    match ast.stmts[stmt as int] {
        StmtView::Return { keyword, value } => failure_at(
            keyword,
            "Return called outside of function"@,
        ),
        _ => lost(),
    }
}

/// A step of a `return` on its way, for `frame`, the frame that was on
/// top of `m`: the boundary of a call takes the value, any other frame is
/// dropped, and a list of statements gives up its environment.
pub open spec fn unwind(m: Machine, frame: FrameView, value: Value, stmt: usize) -> Stepped {
    match frame {
        FrameView::Call => deliver(m, value),
        FrameView::Sequence { source, next, environment } => go(
            released(m, source, environment),
            ControlView::Unwind { value, stmt },
        ),
        FrameView::Initializer { source, next, environment } => go(
            released(m, source, environment),
            ControlView::Unwind { value, stmt },
        ),
        _ => go(m, ControlView::Unwind { value, stmt }),
    }
}

/// One step of the machine.
pub open spec fn step(ast: AstView, m: Machine, event: EventView) -> Stepped {
    let rest = m.with_control(ControlView::Idle);
    match m.control {
        ControlView::Idle => Stepped { machine: rest, action: ActionView::Finished },
        ControlView::Evaluate { expr, environment } => evaluate(ast, rest, expr, environment),
        ControlView::Execute { stmt, environment } => execute(ast, rest, stmt, environment),
        ControlView::Deliver { value } => if rest.frames.len() == 0 {
            fail(rest, lost())
        } else {
            resume(ast, rest.popped(), rest.frames.last(), value)
        },
        ControlView::Complete => if rest.frames.len() == 0 {
            Stepped { machine: rest.stopped(), action: ActionView::Finished }
        } else {
            proceed(ast, rest.popped(), rest.frames.last())
        },
        ControlView::Unwind { value, stmt } => if rest.frames.len() == 0 {
            fail(rest, stray_return(ast, stmt))
        } else {
            unwind(rest.popped(), rest.frames.last(), value, stmt)
        },
        ControlView::AwaitNumber => match event {
            EventView::Number(n) => deliver(rest, Value::Number(n)),
            _ => fail(rest, misfit()),
        },
        ControlView::AwaitText => match event {
            EventView::Text(numeral) => ask(
                rest,
                ControlView::Complete,
                ActionView::Print { text: line(without_point_zero(numeral)) },
            ),
            _ => fail(rest, misfit()),
        },
    }
}

/// The machine ready to run the statements `program`.
pub open spec fn loaded(m: Machine, program: Seq<usize>) -> Machine {
    Machine {
        program,
        frames: seq![
            FrameView::Sequence { source: Source::Program, next: 0, environment: 0 },
        ],
        control: ControlView::Complete,
        ..m
    }
}

/// The function value is one of a declaration of the program, with its
/// arity, and its closure is one of the first `environments` environments.
pub open spec fn function_ok(ast: AstView, environments: nat, f: LoxFunction) -> bool {
    &&& f.declaration < ast.stmts.len()
    &&& ast.stmts[f.declaration as int] is Function
    &&& f.arity == params_of(ast, f.declaration).len()
    &&& f.closure < environments
}

/// The list is one of the program's.
pub open spec fn source_ok(ast: AstView, source: Source) -> bool {
    match source {
        Source::Program => true,
        Source::Block { stmt } => stmt < ast.stmts.len(),
        Source::Body { stmt } => stmt < ast.stmts.len(),
    }
}

/// The frame names nodes of the kind it is for and one of the first
/// `environments` environments.
pub open spec fn frame_ok(ast: AstView, environments: nat, frame: FrameView) -> bool {
    match frame {
        FrameView::Unary { expr } => expr < ast.exprs.len() && ast.exprs[expr as int] is Unary,
        FrameView::BinaryRight { expr, environment } => {
            &&& expr < ast.exprs.len()
            &&& ast.exprs[expr as int] is Binary
            &&& environment < environments
        },
        FrameView::BinaryApply { expr, left } => {
            &&& expr < ast.exprs.len()
            &&& ast.exprs[expr as int] is Binary
        },
        FrameView::Logical { expr, environment } => {
            &&& expr < ast.exprs.len()
            &&& ast.exprs[expr as int] is Logical
            &&& environment < environments
        },
        FrameView::Assign { expr, environment } => {
            &&& expr < ast.exprs.len()
            &&& ast.exprs[expr as int] is Assign
            &&& environment < environments
        },
        FrameView::Callee { expr, environment } => {
            &&& expr < ast.exprs.len()
            &&& ast.exprs[expr as int] is Call
            &&& environment < environments
        },
        FrameView::Arguments { expr, environment, callee, values } => {
            &&& expr < ast.exprs.len()
            &&& ast.exprs[expr as int] matches ExprView::Call { callee: _, paren, arguments }
            &&& values.len() < arguments.len()
            &&& environment < environments
        },
        FrameView::Call => true,
        FrameView::Expression => true,
        FrameView::Print => true,
        FrameView::Var { stmt, environment } => {
            &&& stmt < ast.stmts.len()
            &&& ast.stmts[stmt as int] is Var
            &&& environment < environments
        },
        FrameView::If { stmt, environment } => {
            &&& stmt < ast.stmts.len()
            &&& ast.stmts[stmt as int] is If
            &&& environment < environments
        },
        FrameView::WhileCondition { stmt, environment } => {
            &&& stmt < ast.stmts.len()
            &&& ast.stmts[stmt as int] is While
            &&& environment < environments
        },
        FrameView::WhileBody { stmt, environment } => {
            &&& stmt < ast.stmts.len()
            &&& ast.stmts[stmt as int] is While
            &&& environment < environments
        },
        FrameView::Sequence { source, next, environment } => {
            &&& source_ok(ast, source)
            &&& environment < environments
        },
        FrameView::Initializer { source, next, environment } => {
            &&& source_ok(ast, source)
            &&& environment < environments
        },
        FrameView::Return { stmt } => stmt < ast.stmts.len() && ast.stmts[stmt as int] is Return,
    }
}

/// The control names nodes of the program and one of the first
/// `environments` environments.
pub open spec fn control_ok(ast: AstView, environments: nat, control: ControlView) -> bool {
    match control {
        ControlView::Evaluate { expr, environment } => {
            &&& expr < ast.exprs.len()
            &&& environment < environments
        },
        ControlView::Execute { stmt, environment } => {
            &&& stmt < ast.stmts.len()
            &&& environment < environments
        },
        ControlView::Unwind { value, stmt } => stmt < ast.stmts.len(),
        _ => true,
    }
}

/// The function values are functions of the program.
pub open spec fn functions_ok(ast: AstView, environments: nat, functions: Seq<LoxFunction>)
    -> bool {
    forall|h: int|
        0 <= h < functions.len() ==> function_ok(ast, environments, #[trigger] functions[h])
}

/// The frames fit the program.
pub open spec fn frames_ok(ast: AstView, environments: nat, frames: Seq<FrameView>) -> bool {
    forall|i: int| 0 <= i < frames.len() ==> frame_ok(ast, environments, #[trigger] frames[i])
}

/// The environment that the frame runs in, if it runs in one.
pub open spec fn environment_of(frame: FrameView) -> Option<usize> {
    match frame {
        FrameView::BinaryRight { expr, environment } => Some(environment),
        FrameView::Logical { expr, environment } => Some(environment),
        FrameView::Assign { expr, environment } => Some(environment),
        FrameView::Callee { expr, environment } => Some(environment),
        FrameView::Arguments { expr, environment, callee, values } => Some(environment),
        FrameView::Var { stmt, environment } => Some(environment),
        FrameView::If { stmt, environment } => Some(environment),
        FrameView::WhileCondition { stmt, environment } => Some(environment),
        FrameView::WhileBody { stmt, environment } => Some(environment),
        FrameView::Sequence { source, next, environment } => Some(environment),
        FrameView::Initializer { source, next, environment } => Some(environment),
        _ => None,
    }
}

/// The environment that was made for the frame, if one was.
pub open spec fn owned_by(frame: FrameView) -> Option<usize> {
    match frame {
        FrameView::Sequence { source, next, environment } => own(source, environment),
        FrameView::Initializer { source, next, environment } => own(source, environment),
        _ => None,
    }
}

/// Every frame runs in an environment below `bound`.
pub open spec fn frames_below(frames: Seq<FrameView>, bound: int) -> bool {
    forall|i: int|
        0 <= i < frames.len() ==> (environment_of(#[trigger] frames[i]) matches Some(e) ==> e
            < bound)
}

/// The environment that was made for a frame is newer than those that
/// the frames below it run in.
pub open spec fn owners_ok(frames: Seq<FrameView>) -> bool {
    forall|j: int|
        0 <= j < frames.len() ==> (owned_by(#[trigger] frames[j]) matches Some(e)
            ==> frames_below(frames.subrange(0, j), e as int))
}

/// The environment that a function value keeps is marked as kept.
pub open spec fn captures_ok(environments: Seq<EnvironmentView>, functions: Seq<LoxFunction>)
    -> bool {
    forall|h: int|
        0 <= h < functions.len() ==> (#[trigger] functions[h]).closure < environments.len()
            && environments[functions[h].closure as int].captured
}

/// The state of the machine fits the program: what it names is there, and
/// it knows which environments can be given up.
pub open spec fn valid(ast: AstView, m: Machine) -> bool {
    &&& fitting(ast, m)
    &&& owners_ok(m.frames)
    &&& captures_ok(m.environments, m.functions)
}

/// What the machine names is there: nodes, environments, functions.
pub open spec fn fitting(ast: AstView, m: Machine) -> bool {
    &&& ast.wf()
    &&& environment::chained(m.environments)
    &&& functions_ok(ast, m.environments.len(), m.functions)
    &&& all_below(m.program, ast.stmts.len() as int)
    &&& m.program.len() <= usize::MAX
    &&& frames_ok(ast, m.environments.len(), m.frames)
    &&& control_ok(ast, m.environments.len(), m.control)
}

/// Parentheses change nothing: the evaluation of a parenthesized
/// expression is the evaluation of what stands in the parentheses, in the
/// same environment and for the same frames.
pub proof fn lemma_grouping_is_transparent(
    ast: AstView,
    m: Machine,
    expr: usize,
    environment: usize,
)
    requires
        ast.exprs[expr as int] is Grouping,
    ensures
        evaluate(ast, m, expr, environment) == go(
            m,
            ControlView::Evaluate {
                expr: ast.exprs[expr as int]->Grouping_expression,
                environment,
            },
        ),
{
}

/// `and` and `or` give one of their operands as it is, not a boolean
/// made from it: the left operand where it decides, and else whatever the
/// right operand comes to, which goes to the frames that waited for the
/// value of the whole expression.
pub proof fn lemma_logical_gives_operand(
    ast: AstView,
    m: Machine,
    expr: usize,
    environment: usize,
    left: Value,
)
    requires
        ast.exprs[expr as int] is Logical,
    ensures
        ({
            let operator = ast.exprs[expr as int]->Logical_operator;
            let right = ast.exprs[expr as int]->Logical_right;
            let next = resume(ast, m, FrameView::Logical { expr, environment }, left);
            &&& decided(operator.kind, left) ==> next == deliver(m, left)
            &&& !decided(operator.kind, left) ==> next == go(
                m,
                ControlView::Evaluate { expr: right, environment },
            )
            &&& next.machine.frames == m.frames
        }),
{
}

/// None of the frames is the boundary of a call.
pub open spec fn no_call(frames: Seq<FrameView>) -> bool {
    forall|i: int| 0 <= i < frames.len() ==> !(#[trigger] frames[i] is Call)
}

/// A `return` unwinds to the nearest call: from a machine whose frames
/// are `below`, the boundary of a call, and the frames `above` of the
/// blocks and statements inside the call, the steps that drop those frames
/// and the boundary lead to a machine that hands the returned value to
/// `below`. The host is asked nothing, and nothing else changes but that
/// environments of the blocks may be given up.
pub proof fn lemma_return_unwinds(
    ast: AstView,
    m: Machine,
    below: Seq<FrameView>,
    above: Seq<FrameView>,
    value: Value,
    stmt: usize,
)
    requires
        m.control == (ControlView::Unwind { value, stmt }),
        m.frames == below.push(FrameView::Call) + above,
        no_call(above),
    ensures
        ({
            let end = run(ast, m, EventView::Nothing, above.len() + 1);
            &&& end == deliver(
                Machine { frames: below, environments: end.machine.environments, ..m },
                value,
            )
            &&& end.machine.environments.is_prefix_of(m.environments)
        }),
    decreases above.len(),
{
    let rest = m.with_control(ControlView::Idle);
    assert(m.frames.len() == below.len() + 1 + above.len());
    if above.len() == 0 {
        assert(m.frames =~= below.push(FrameView::Call));
        assert(rest.frames.last() is Call);
        assert(rest.popped().frames =~= below);
        let next = step(ast, m, EventView::Nothing);
        assert(next == deliver(Machine { frames: below, ..m }, value));
        assert(run(ast, next.machine, EventView::Nothing, 0) == Stepped {
            machine: next.machine,
            action: ActionView::Continue,
        });
    } else {
        let top = above.last();
        assert(m.frames.last() == top);
        assert(above[above.len() - 1] == top);
        assert(!(top is Call));
        let next = step(ast, m, EventView::Nothing);
        assert(next == unwind(rest.popped(), top, value, stmt));
        assert(next.action is Continue);
        assert(next.machine.control == (ControlView::Unwind { value, stmt }));
        assert(next.machine.frames =~= below.push(FrameView::Call) + above.drop_last());
        assert(next.machine.environments.is_prefix_of(m.environments));
        assert forall|i: int| 0 <= i < above.drop_last().len() implies !(
        #[trigger] above.drop_last()[i] is Call) by {
            assert(above.drop_last()[i] == above[i]);
        }
        lemma_return_unwinds(ast, next.machine, below, above.drop_last(), value, stmt);
        let end = run(ast, m, EventView::Nothing, above.len() + 1);
        assert(end == run(ast, next.machine, EventView::Nothing, above.len() as nat));
        assert(Machine { frames: below, environments: end.machine.environments, ..next.machine }
            == Machine { frames: below, environments: end.machine.environments, ..m });
    }
}

/// A machine that has stopped runs nothing: whatever the budget, it asks
/// the host for nothing and says that it has finished.
pub proof fn lemma_stopped_runs_nothing(ast: AstView, m: Machine, event: EventView, budget: nat)
    requires
        budget > 0,
    ensures
        run(ast, m.stopped(), event, budget) == (Stepped {
            machine: m.stopped(),
            action: ActionView::Finished,
        }),
{
    assert(m.stopped().with_control(ControlView::Idle) == m.stopped());
}

/// A function that ends without a `return` gives `nil`: when the body is
/// done, the boundary of the call hands `nil` to the frames below it.
pub proof fn lemma_call_without_return(ast: AstView, m: Machine)
    requires
        m.control == ControlView::Complete,
        m.frames.len() > 0,
        m.frames.last() is Call,
    ensures
        step(ast, m, EventView::Nothing) == deliver(
            Machine { frames: m.frames.drop_last(), ..m },
            Value::Nil,
        ),
{
}

/// A machine that fits a program fits every program that holds the
/// nodes of the first.
pub proof fn lemma_valid_extends(before: AstView, ast: AstView, m: Machine)
    requires
        valid(before, m),
        ast.extends(before),
        ast.wf(),
    ensures
        valid(ast, m),
{
    let n = m.environments.len();
    assert forall|h: int| 0 <= h < m.functions.len() implies function_ok(
        ast,
        n,
        #[trigger] m.functions[h],
    ) by {
        assert(function_ok(before, n, m.functions[h]));
    }
    assert forall|i: int| 0 <= i < m.frames.len() implies frame_ok(
        ast,
        n,
        #[trigger] m.frames[i],
    ) by {
        assert(frame_ok(before, n, m.frames[i]));
    }
}

} // verus!
