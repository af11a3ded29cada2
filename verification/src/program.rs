//! The execution context a program runs in: the scope chain, plus a ghost
//! log of every line the `println` built-in has written.

use vstd::prelude::*;

use crate::data::{Data, DataV};
use crate::error::ExecuteError;
use crate::expr::{eval_res_view, sev, Expression};
use crate::scope::{spec_assign, spec_lookup, Scope, ScopeTree};

verus! {

/// The mutable context of a running program.
pub struct Program {
    pub scopes: ScopeTree,
    /// Every line written so far, in order; ghost, for specification only.
    pub output: Ghost<Seq<Seq<char>>>,
}

impl Program {
    /// Whether the scope chain is well-formed (at least one frame, each
    /// frame a map).
    pub open spec fn wf(&self) -> bool {
        self.scopes.wf()
    }

    /// A fresh context: one empty global frame, nothing written.
    pub fn new() -> (r: Program)
        ensures
            r.wf(),
            r.scopes@ =~= seq![Map::<Seq<char>, DataV>::empty()],
            r.output@ =~= Seq::<Seq<char>>::empty(),
    {
        Program { scopes: ScopeTree::new(), output: Ghost(Seq::empty()) }
    }

    /// Evaluate one expression in this context; see `Expression::eval`.
    pub fn eval(&mut self, e: &Expression) -> (r: Result<Data, ExecuteError>)
        requires
            old(self).wf(),
        ensures
            final(self).wf(),
            final(self).scopes@.len() == old(self).scopes@.len(),
            match sev(e@, old(self).scopes@, old(self).output@, u64::MAX as nat) {
                None => r == Err::<Data, ExecuteError>(ExecuteError::StepLimit),
                Some(t) => eval_res_view(r) == t.0 && final(self).scopes@ == t.1
                    && final(self).output@ == t.2,
            },
    {
        e.eval(self)
    }

    /// The value bound to a name, innermost frame first.
    pub fn var(&self, name: &str) -> (r: Option<Data>)
        requires
            self.wf(),
        ensures
            r.deep_view() == spec_lookup(self.scopes@, name@),
    {
        self.scopes.var(name)
    }

    /// Assign a value to a name: overwrite the innermost existing binding,
    /// or create one in the innermost frame.
    pub fn set_var(&mut self, name: &str, val: Data)
        requires
            old(self).wf(),
        ensures
            final(self).wf(),
            final(self).scopes@ == spec_assign(old(self).scopes@, name@, val@),
            final(self).scopes@.len() == old(self).scopes@.len(),
            final(self).output@ == old(self).output@,
    {
        self.scopes.set_var(name, val)
    }

    /// Push a fresh innermost frame.
    pub fn new_scope(&mut self)
        requires
            old(self).wf(),
        ensures
            final(self).wf(),
            final(self).scopes@ =~= old(self).scopes@.push(Map::empty()),
            final(self).output@ == old(self).output@,
    {
        self.scopes.frames.push(Scope::new());
    }

    /// Pop the innermost frame; the global frame always stays.
    pub fn pop_scope(&mut self)
        requires
            old(self).wf(),
            old(self).scopes@.len() >= 2,
        ensures
            final(self).wf(),
            final(self).scopes@ =~= old(self).scopes@.drop_last(),
            final(self).output@ == old(self).output@,
    {
        self.scopes.frames.pop();
    }
}

} // verus!
