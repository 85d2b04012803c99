//! Functions declared in a program.

use vstd::prelude::*;

use crate::ast::AstView;
use crate::interpreter::{Action, Interpreter};
use crate::lox_callable::LoxCallable;
use crate::lox_type::{LoxValue, Value};
use crate::machine;
use crate::machine::{Machine, Stepped};

verus! {

/// A function value: the statement that declares it and the environment
/// that was current when the declaration ran.
///
/// Both are handles: `declaration` into the statements of the program,
/// `closure` into the interpreter's environments.
#[derive(Debug, Clone, Copy, PartialEq, Eq, Structural)]
pub struct LoxFunction {
    pub arity: u32,
    pub declaration: usize,
    pub closure: usize,
}

impl LoxCallable for LoxFunction {
    open spec fn arity_of(&self) -> u32 {
        self.arity
    }

    open spec fn known(&self, ast: AstView, m: Machine) -> bool {
        machine::function_ok(ast, m.environments.len(), *self)
    }

    open spec fn called(&self, ast: AstView, m: Machine, values: Seq<Value>) -> Stepped {
        machine::enter(ast, m, *self, values)
    }

    fn arity(&self) -> (r: u32) {
        self.arity
    }

    /// Enters the function: a new environment inside the closure binds
    /// each parameter to its argument, and the body runs there.
    fn call(&self, interpreter: &mut Interpreter, arguments: Vec<LoxValue>) -> (action: Action) {
        interpreter.enter(*self, arguments)
    }
}

} // verus!
