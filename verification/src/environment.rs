//! Environments: the variables of a running program.
//!
//! An environment maps names to values and may have an enclosing
//! environment. All environments of a run live in one store and name each
//! other by their index there; the first one holds the globals.

use vstd::prelude::*;
use vstd::string::*;

use crate::bindings::Bindings;
use crate::interpreter::{failure, RuntimeError, RuntimeErrorView};
use crate::lox_type::{LoxValue, Value};
use crate::text::text;
use crate::token::Token;

verus! {

/// The variables of one scope of a running program.
pub struct Environment {
    pub values: Bindings<LoxValue>,
    pub enclosing: Option<usize>,
    /// A function value keeps this environment.
    pub captured: bool,
}

/// The mathematical value of an [`Environment`].
pub struct EnvironmentView {
    pub values: Map<Seq<char>, Value>,
    pub enclosing: Option<usize>,
    pub captured: bool,
}

/// An environment without variables inside `enclosing`, which no function
/// value keeps.
pub open spec fn fresh(enclosing: Option<usize>) -> EnvironmentView {
    EnvironmentView { values: Map::empty(), enclosing, captured: false }
}

impl View for Environment {
    type V = EnvironmentView;

    open spec fn view(&self) -> EnvironmentView {
        EnvironmentView {
            values: self.values@.map_values(|v: LoxValue| v@),
            enclosing: self.enclosing,
            captured: self.captured,
        }
    }
}

impl EnvironmentView {
    /// This environment with `name` bound to `value`.
    pub open spec fn define(self, name: Seq<char>, value: Value) -> EnvironmentView {
        EnvironmentView { values: self.values.insert(name, value), ..self }
    }

    /// This environment, kept by a function value.
    pub open spec fn capture(self) -> EnvironmentView {
        EnvironmentView { captured: true, ..self }
    }
}

impl Environment {
    /// An environment without variables and without an enclosing one.
    pub fn new() -> (e: Self)
        ensures
            e@ == fresh(None),
    {
        let e = Environment { values: Bindings::new(), enclosing: None, captured: false };
        assert(e@.values =~= Map::empty());
        e
    }

    /// An environment without variables inside the environment
    /// `enclosing`.
    pub fn new_enclosed(enclosing: usize) -> (e: Self)
        ensures
            e@ == fresh(Some(enclosing)),
    {
        let e = Environment { values: Bindings::new(), enclosing: Some(enclosing), captured: false };
        assert(e@.values =~= Map::empty());
        e
    }

    /// Binds `name` to `value` here, whether or not it was bound before.
    pub fn define(&mut self, name: String, value: LoxValue)
        ensures
            final(self)@ == old(self)@.define(name@, value@),
    {
        self.values.insert(name, value);
        assert(self@.values =~= old(self)@.values.insert(name@, value@));
    }
}

/// The error for a variable that is not there.
pub open spec fn undefined(name: Token) -> RuntimeErrorView {
    failure("Undefined variable '"@ + name.lexeme@ + "'."@, name.line)
}

/// Every environment but the first lies inside an earlier one; the
/// first, which holds the globals, lies inside none.
pub open spec fn chained(envs: Seq<EnvironmentView>) -> bool {
    &&& envs.len() > 0
    &&& envs[0].enclosing is None
    &&& forall|i: int|
        0 < i < envs.len() ==> (#[trigger] envs[i]).enclosing is Some && envs[i].enclosing->0 < i
}

/// The environment `distance` steps out from `env`, if the chain is that
/// long.
pub open spec fn ancestor(envs: Seq<EnvironmentView>, env: usize, distance: nat) -> Option<usize>
    decreases distance,
{
    if env >= envs.len() {
        None
    } else if distance == 0 {
        Some(env)
    } else {
        match envs[env as int].enclosing {
            Some(outer) => ancestor(envs, outer, (distance - 1) as nat),
            None => None,
        }
    }
}

/// The nearest environment, from `env` outwards, that binds `name`.
pub open spec fn holder(envs: Seq<EnvironmentView>, env: usize, name: Seq<char>) -> Option<usize>
    decreases env,
{
    if env >= envs.len() {
        None
    } else if envs[env as int].values.contains_key(name) {
        Some(env)
    } else {
        match envs[env as int].enclosing {
            Some(outer) => if outer < env {
                holder(envs, outer, name)
            } else {
                None
            },
            None => None,
        }
    }
}

/// What a read of `name` from `env` outwards gives.
pub open spec fn get(envs: Seq<EnvironmentView>, env: usize, name: Token) -> Result<
    Value,
    RuntimeErrorView,
> {
    match holder(envs, env, name.lexeme@) {
        Some(h) => Ok(envs[h as int].values[name.lexeme@]),
        None => Err(undefined(name)),
    }
}

/// What a read of `name` from the environment `distance` steps out from
/// `env` gives.
pub open spec fn get_at(envs: Seq<EnvironmentView>, env: usize, distance: usize, name: Token)
    -> Result<Value, RuntimeErrorView> {
    match ancestor(envs, env, distance as nat) {
        Some(a) => if envs[a as int].values.contains_key(name.lexeme@) {
            Ok(envs[a as int].values[name.lexeme@])
        } else {
            Err(undefined(name))
        },
        None => Err(undefined(name)),
    }
}

/// The environments after `name` is bound to `value` in `env`.
pub open spec fn define(envs: Seq<EnvironmentView>, env: usize, name: Seq<char>, value: Value)
    -> Seq<EnvironmentView> {
    envs.update(env as int, envs[env as int].define(name, value))
}

/// The environments after a function value has come to keep `env`.
pub open spec fn capture(envs: Seq<EnvironmentView>, env: usize) -> Seq<EnvironmentView> {
    envs.update(env as int, envs[env as int].capture())
}

/// The environments after `value` is assigned to `name`, looked for from
/// `env` outwards; they are unchanged if no environment binds the name.
pub open spec fn assign(envs: Seq<EnvironmentView>, env: usize, name: Token, value: Value) -> Seq<
    EnvironmentView,
> {
    match holder(envs, env, name.lexeme@) {
        Some(h) => define(envs, h, name.lexeme@, value),
        None => envs,
    }
}

/// The environments after `value` is assigned to `name` in the environment
/// `distance` steps out from `env`; they are unchanged if the chain is not
/// that long.
pub open spec fn assign_at(
    envs: Seq<EnvironmentView>,
    env: usize,
    distance: usize,
    name: Token,
    value: Value,
) -> Seq<EnvironmentView> {
    match ancestor(envs, env, distance as nat) {
        Some(a) => define(envs, a, name.lexeme@, value),
        None => envs,
    }
}

/// An ancestor is an environment of the store, no later than the one it
/// was reached from.
pub proof fn lemma_ancestor_bounds(envs: Seq<EnvironmentView>, env: usize, distance: nat)
    requires
        chained(envs),
    ensures
        ancestor(envs, env, distance) matches Some(a) ==> a <= env && a < envs.len(),
    decreases distance,
{
    if env < envs.len() && distance > 0 {
        match envs[env as int].enclosing {
            Some(outer) => {
                lemma_ancestor_bounds(envs, outer, (distance - 1) as nat);
            },
            None => {},
        }
    }
}

/// The environment that holds a name is one of the store and binds the
/// name.
pub proof fn lemma_holder_bounds(envs: Seq<EnvironmentView>, env: usize, name: Seq<char>)
    ensures
        holder(envs, env, name) matches Some(h) ==> h <= env && h < envs.len() && envs[h as int].values.contains_key(
            name,
        ),
    decreases env,
{
    if env < envs.len() && !envs[env as int].values.contains_key(name) {
        match envs[env as int].enclosing {
            Some(outer) => {
                if outer < env {
                    lemma_holder_bounds(envs, outer, name);
                }
            },
            None => {},
        }
    }
}

/// The environments of a run.
pub struct Environments {
    pub list: Vec<Environment>,
}

impl View for Environments {
    type V = Seq<EnvironmentView>;

    open spec fn view(&self) -> Seq<EnvironmentView> {
        self.list@.map_values(|e: Environment| e@)
    }
}

impl Environments {
    /// The environments form chains that end in the globals.
    pub open spec fn wf(&self) -> bool {
        chained(self@)
    }

    /// A store with the environment of the globals alone, which is empty.
    pub fn new() -> (s: Self)
        ensures
            s.wf(),
            s@ == seq![fresh(None)],
    {
        let mut list: Vec<Environment> = Vec::new();
        list.push(Environment::new());
        let s = Environments { list };
        assert(s@ =~= seq![fresh(None)]);
        s
    }

    /// The number of environments.
    pub fn len(&self) -> (n: usize)
        ensures
            n == self@.len(),
    {
        self.list.len()
    }

    /// Adds an empty environment inside `enclosing` and gives its index.
    pub fn new_enclosed(&mut self, enclosing: usize) -> (id: usize)
        requires
            old(self).wf(),
            enclosing < old(self)@.len(),
        ensures
            final(self).wf(),
            id == old(self)@.len(),
            final(self)@ == old(self)@.push(fresh(Some(enclosing))),
    {
        let id = self.list.len();
        self.list.push(Environment::new_enclosed(enclosing));
        assert(self@ =~= old(self)@.push(fresh(Some(enclosing))));
        id
    }

    /// Binds `name` to `value` in the environment `env`.
    pub fn define(&mut self, env: usize, name: String, value: LoxValue)
        requires
            old(self).wf(),
            env < old(self)@.len(),
        ensures
            final(self).wf(),
            final(self)@ == define(old(self)@, env, name@, value@),
    {
        self.list[env].define(name, value);
        assert(self@ =~= define(old(self)@, env, name@, value@));
    }

    /// Notes that a function value keeps the environment `env`.
    pub fn capture(&mut self, env: usize)
        requires
            old(self).wf(),
            env < old(self)@.len(),
        ensures
            final(self).wf(),
            final(self)@ == capture(old(self)@, env),
    {
        self.list[env].captured = true;
        assert(self@ =~= capture(old(self)@, env));
    }

    /// Gives up the last environment, which must not be that of the
    /// globals.
    pub fn release(&mut self)
        requires
            old(self).wf(),
            old(self)@.len() > 1,
        ensures
            final(self).wf(),
            final(self)@ == old(self)@.drop_last(),
    {
        self.list.pop();
        assert(self@ =~= old(self)@.drop_last());
    }

    /// A function value keeps the environment `env`.
    pub fn captured(&self, env: usize) -> (r: bool)
        requires
            env < self@.len(),
        ensures
            r == self@[env as int].captured,
    {
        assert(self@[env as int] == self.list@[env as int]@);
        self.list[env].captured
    }

    fn undefined(name: &Token) -> (e: RuntimeError)
        ensures
            e@ == undefined(*name),
    {
        let mut message = text("Undefined variable '");
        message.append(name.lexeme.as_str());
        message.append("'.");
        RuntimeError::new(message, name.line)
    }

    /// Reads `name`, looking from `env` outwards.
    pub fn get(&self, env: usize, name: &Token) -> (r: Result<LoxValue, RuntimeError>)
        requires
            self.wf(),
        ensures
            match r {
                Ok(v) => get(self@, env, *name) == Ok::<Value, RuntimeErrorView>(v@),
                Err(e) => get(self@, env, *name) == Err::<Value, RuntimeErrorView>(e@),
            },
    {
        if env >= self.list.len() {
            return Err(Self::undefined(name));
        }
        let mut at = env;
        loop
            invariant
                self.wf(),
                at < self.list.len(),
                holder(self@, env, name.lexeme@) == holder(self@, at, name.lexeme@),
            decreases at,
        {
            assert(self@[at as int] == self.list@[at as int]@);
            match self.list[at].values.get(&name.lexeme) {
                Some(val) => {
                    return Ok(val.clone());
                },
                None => match self.list[at].enclosing {
                    Some(outer) => {
                        at = outer;
                    },
                    None => {
                        return Err(Self::undefined(name));
                    },
                },
            }
        }
    }

    /// The environment `distance` steps out from `env`.
    pub fn ancestor(&self, env: usize, distance: usize) -> (r: Option<usize>)
        requires
            self.wf(),
        ensures
            r == ancestor(self@, env, distance as nat),
            r matches Some(a) ==> a < self@.len(),
    {
        if env >= self.list.len() {
            return None;
        }
        let mut at = env;
        let mut left = distance;
        while left > 0
            invariant
                self.wf(),
                at < self.list.len(),
                ancestor(self@, env, distance as nat) == ancestor(self@, at, left as nat),
            decreases left,
        {
            assert(self@[at as int] == self.list@[at as int]@);
            match self.list[at].enclosing {
                Some(outer) => {
                    at = outer;
                    left = left - 1;
                },
                None => {
                    return None;
                },
            }
        }
        Some(at)
    }

    /// Reads `name` in the environment `distance` steps out from `env`.
    pub fn get_at(&self, env: usize, distance: usize, name: &Token) -> (r: Result<
        LoxValue,
        RuntimeError,
    >)
        requires
            self.wf(),
        ensures
            match r {
                Ok(v) => get_at(self@, env, distance, *name) == Ok::<Value, RuntimeErrorView>(v@),
                Err(e) => get_at(self@, env, distance, *name) == Err::<Value, RuntimeErrorView>(
                    e@,
                ),
            },
    {
        match self.ancestor(env, distance) {
            Some(a) => {
                assert(self@[a as int] == self.list@[a as int]@);
                match self.list[a].values.get(&name.lexeme) {
                    Some(val) => Ok(val.clone()),
                    None => Err(Self::undefined(name)),
                }
            },
            None => Err(Self::undefined(name)),
        }
    }

    /// Assigns `value` to `name`, looking from `env` outwards. A name
    /// that no environment binds is an error.
    pub fn assign(&mut self, env: usize, name: &Token, value: &LoxValue) -> (r: Result<
        (),
        RuntimeError,
    >)
        requires
            old(self).wf(),
        ensures
            final(self).wf(),
            final(self)@ == assign(old(self)@, env, *name, value@),
            match r {
                Ok(_) => holder(old(self)@, env, name.lexeme@) is Some,
                Err(e) => holder(old(self)@, env, name.lexeme@) is None && e@ == undefined(*name),
            },
    {
        if env >= self.list.len() {
            return Err(Self::undefined(name));
        }
        let mut at = env;
        loop
            invariant
                self.wf(),
                self@ == old(self)@,
                at < self.list.len(),
                holder(self@, env, name.lexeme@) == holder(self@, at, name.lexeme@),
            decreases at,
        {
            assert(self@[at as int] == self.list@[at as int]@);
            if self.list[at].values.contains_key(&name.lexeme) {
                self.define(at, name.lexeme.clone(), value.clone());
                return Ok(());
            }
            match self.list[at].enclosing {
                Some(outer) => {
                    at = outer;
                },
                None => {
                    return Err(Self::undefined(name));
                },
            }
        }
    }

    /// Assigns `value` to `name` in the environment `distance` steps out
    /// from `env`. A chain that is not that long is an error.
    pub fn assign_at(&mut self, env: usize, distance: usize, name: &Token, value: &LoxValue) -> (r:
        Result<(), RuntimeError>)
        requires
            old(self).wf(),
        ensures
            final(self).wf(),
            final(self)@ == assign_at(old(self)@, env, distance, *name, value@),
            match r {
                Ok(_) => ancestor(old(self)@, env, distance as nat) is Some,
                Err(e) => ancestor(old(self)@, env, distance as nat) is None && e@ == undefined(
                    *name,
                ),
            },
    {
        match self.ancestor(env, distance) {
            Some(a) => {
                self.define(a, name.lexeme.clone(), value.clone());
                Ok(())
            },
            None => Err(Self::undefined(name)),
        }
    }
}

} // verus!
