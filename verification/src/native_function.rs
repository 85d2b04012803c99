//! Functions that the host provides.

use vstd::prelude::*;

use crate::ast::AstView;
use crate::interpreter::{Action, Interpreter};
use crate::lox_callable::LoxCallable;
use crate::lox_type::{LoxValue, Value};
use crate::machine;
use crate::machine::{Machine, Stepped};

verus! {

/// The operations that the host implements.
#[derive(Debug, Clone, Copy, PartialEq, Eq, Structural)]
pub enum Native {
    /// Milliseconds since a fixed epoch.
    Clock,
}

/// A native function: what it does and how many arguments it takes.
#[derive(Debug, Clone, Copy, PartialEq, Eq, Structural)]
pub struct NativeFunction {
    pub arity: u32,
    pub function: Native,
}

impl LoxCallable for NativeFunction {
    open spec fn arity_of(&self) -> u32 {
        self.arity
    }

    open spec fn known(&self, ast: AstView, m: Machine) -> bool {
        true
    }

    open spec fn called(&self, ast: AstView, m: Machine, values: Seq<Value>) -> Stepped {
        machine::native(m, self.function)
    }

    fn arity(&self) -> (r: u32) {
        self.arity
    }

    /// Asks the host to do what the function stands for.
    fn call(&self, interpreter: &mut Interpreter, arguments: Vec<LoxValue>) -> (action: Action) {
        interpreter.native(self.function)
    }
}

} // verus!
