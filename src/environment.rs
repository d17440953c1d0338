use vstd::prelude::*;
use crate::ast::{Object, Val};
use crate::interpreter::{RuntimeError, undefined_variable};
use crate::text::bytes_equal;

verus! {

/// The variables in scope, as a mathematical value: the bindings in the
/// order they were made, and where each open block's bindings start.
pub struct EnvM {
    pub bindings: Seq<(Seq<u8>, Val)>,
    pub marks: Seq<nat>,
}

/// The position of the latest binding of `name` among the first `n`.
pub open spec fn latest(b: Seq<(Seq<u8>, Val)>, name: Seq<u8>, n: int) -> Option<int>
    decreases n,
{
    if n <= 0 || n > b.len() {
        None
    } else if b[n - 1].0 == name {
        Some(n - 1)
    } else {
        latest(b, name, n - 1)
    }
}

/// The value of `name` in the innermost scope that declares it.
pub open spec fn env_lookup(env: EnvM, name: Seq<u8>) -> Option<Val> {
    match latest(env.bindings, name, env.bindings.len() as int) {
        Some(i) => Some(env.bindings[i].1),
        None => None,
    }
}

/// Declares `name` in the innermost scope; it shadows any outer `name`.
pub open spec fn env_define(env: EnvM, name: Seq<u8>, v: Val) -> EnvM {
    EnvM { bindings: env.bindings.push((name, v)), marks: env.marks }
}

/// Assigns to the `name` of the innermost scope that declares it; fails
/// when no scope does.
pub open spec fn env_assign(env: EnvM, name: Seq<u8>, v: Val) -> Option<EnvM> {
    match latest(env.bindings, name, env.bindings.len() as int) {
        Some(i) => Some(EnvM { bindings: env.bindings.update(i, (name, v)), marks: env.marks }),
        None => None,
    }
}

/// Opens a block scope.
pub open spec fn env_enter(env: EnvM) -> EnvM {
    EnvM { bindings: env.bindings, marks: env.marks.push(env.bindings.len()) }
}

/// Closes the innermost block scope, dropping its declarations.
pub open spec fn env_exit(env: EnvM) -> EnvM {
    if env.marks.len() == 0 {
        env
    } else {
        let m = env.marks.last();
        EnvM {
            bindings: env.bindings.subrange(0, if m <= env.bindings.len() { m as int } else { env.bindings.len() as int }),
            marks: env.marks.drop_last(),
        }
    }
}

pub open spec fn empty_env() -> EnvM {
    EnvM { bindings: Seq::empty(), marks: Seq::empty() }
}

/// A binding of a name to a value.
pub struct Binding {
    pub name: Vec<u8>,
    pub value: Object,
}

/// The variables in scope, innermost last.
pub struct Environment {
    bindings: Vec<Binding>,
    marks: Vec<usize>,
}

pub open spec fn bindings_model(b: Seq<Binding>) -> Seq<(Seq<u8>, Val)> {
    b.map_values(|x: Binding| (x.name@, x.value@))
}

impl View for Environment {
    type V = EnvM;

    closed spec fn view(&self) -> EnvM {
        EnvM { bindings: bindings_model(self.bindings@), marks: self.marks@.map_values(|m: usize| m as nat) }
    }
}

impl Environment {
    pub fn new() -> (r: Environment)
        ensures
            r@ == empty_env(),
    {
        let r = Environment { bindings: Vec::new(), marks: Vec::new() };
        assert(r@.bindings =~= Seq::<(Seq<u8>, Val)>::empty());
        assert(r@.marks =~= Seq::<nat>::empty());
        r
    }

    fn find(&self, name: &[u8]) -> (r: Option<usize>)
        ensures
            r matches Some(i) ==> latest(self@.bindings, name@, self@.bindings.len() as int) == Some(i as int),
            r is None ==> latest(self@.bindings, name@, self@.bindings.len() as int) is None,
            r matches Some(i) ==> i < self.bindings@.len(),
    {
        let ghost b = self@.bindings;
        let mut n = self.bindings.len();
        while n > 0
            invariant
                n <= self.bindings@.len() == b.len(),
                b == self@.bindings,
                latest(b, name@, b.len() as int) == latest(b, name@, n as int),
            decreases n,
        {
            if bytes_equal(self.bindings[n - 1].name.as_slice(), name) {
                return Some(n - 1);
            }
            n -= 1;
        }
        None
    }

    /// The value of `name`, or an error when no scope declares it.
    pub fn get(&self, name: &[u8]) -> (r: Result<Object, RuntimeError>)
        ensures
            match env_lookup(self@, name@) {
                Some(v) => r matches Ok(o) && o@ == v,
                None => r matches Err(e) && e@ == undefined_variable(name@),
            },
    {
        match self.find(name) {
            Some(i) => {
                let v = self.bindings[i].value.copy();
                assert(self@.bindings[i as int] == (self.bindings@[i as int].name@, self.bindings@[i as int].value@));
                assert(env_lookup(self@, name@) == Some(v@));
                Ok(v)
            },
            None => {
                let e = RuntimeError::undefined(name);
                assert(env_lookup(self@, name@) is None);
                Err(e)
            },
        }
    }

    /// Declares `name` with `value` in the innermost scope.
    pub fn define(&mut self, name: Vec<u8>, value: Object)
        ensures
            final(self)@ == env_define(old(self)@, name@, value@),
    {
        let ghost before = self.bindings@;
        self.bindings.push(Binding { name, value });
        assert(bindings_model(self.bindings@) =~= bindings_model(before).push((name@, value@)));
    }

    /// Assigns `value` to the innermost `name`, or fails when no scope
    /// declares it.
    pub fn set(&mut self, name: Vec<u8>, value: Object) -> (r: Result<(), RuntimeError>)
        ensures
            match env_assign(old(self)@, name@, value@) {
                Some(e) => r is Ok && final(self)@ == e,
                None => r matches Err(x) && x@ == undefined_variable(name@) && final(self)@ == old(self)@,
            },
    {
        match self.find(name.as_slice()) {
            Some(i) => {
                let ghost before = self.bindings@;
                let ghost entry = (name@, value@);
                self.bindings.set(i, Binding { name, value });
                assert(bindings_model(self.bindings@) =~= bindings_model(before).update(i as int, entry));
                Ok(())
            },
            None => Err(RuntimeError::undefined(name.as_slice())),
        }
    }

    /// Opens a block scope.
    pub fn enter_scope(&mut self)
        ensures
            final(self)@ == env_enter(old(self)@),
    {
        let ghost before = self.marks@;
        self.marks.push(self.bindings.len());
        assert(self@.marks =~= old(self)@.marks.push(old(self)@.bindings.len()));
    }

    /// Closes the innermost block scope.
    pub fn exit_scope(&mut self)
        ensures
            final(self)@ == env_exit(old(self)@),
    {
        match self.marks.pop() {
            None => {},
            Some(m) => {
                let ghost before = self.bindings@;
                self.bindings.truncate(m);
                proof {
                    assert(self@.marks =~= old(self)@.marks.drop_last());
                    let k = if m <= before.len() { m as int } else { before.len() as int };
                    assert(self.bindings@ =~= before.subrange(0, k));
                    assert(self@.bindings =~= old(self)@.bindings.subrange(0, k));
                }
            },
        }
    }
}

} // verus!
