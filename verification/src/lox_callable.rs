//! What can be called.

use vstd::prelude::*;

use crate::ast::AstView;
use crate::interpreter::{values_view, Action, Interpreter};
use crate::lox_type::{LoxValue, Value};
use crate::machine::{Machine, Stepped};

verus! {

/// A value that can be called with a fixed number of arguments.
pub trait LoxCallable {
    /// The number of arguments that a call takes.
    spec fn arity_of(&self) -> u32;

    /// The machine `m` can call this value.
    spec fn known(&self, ast: AstView, m: Machine) -> bool;

    /// What a call with the arguments `values` makes of the machine `m`.
    spec fn called(&self, ast: AstView, m: Machine, values: Seq<Value>) -> Stepped;

    fn arity(&self) -> (r: u32)
        ensures
            r == self.arity_of(),
    ;

    /// Calls this value with as many arguments as its arity.
    fn call(&self, interpreter: &mut Interpreter, arguments: Vec<LoxValue>) -> (action: Action)
        requires
            old(interpreter).wf(),
            self.known(old(interpreter).ast@, old(interpreter)@),
            arguments@.len() == self.arity_of(),
        ensures
            final(interpreter).wf(),
            final(interpreter).continues(old(interpreter)),
            (Stepped { machine: final(interpreter)@, action: action@ }) == self.called(
                old(interpreter).ast@,
                old(interpreter)@,
                values_view(arguments@),
            ),
    ;
}

} // verus!
