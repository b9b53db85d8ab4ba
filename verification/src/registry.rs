//! The builtin registry interface: a lookup table from builtin name to
//! a callable primitive, supplied by the host.  The parser consults it
//! read-only by name; the evaluator invokes primitives through it with
//! exclusive mutable access to the context.

use vstd::prelude::*;
use crate::context::Context;
use crate::value::AbsValue;

verus! {

/// A table of named primitives.  `spec_has` says which names are
/// registered, and `spec_effect` gives the effect of a primitive on the
/// stack and the environment: every invocation of a registered
/// primitive must transform the context exactly as `spec_effect` says.
/// Invoking a name that is not registered must leave the context
/// unchanged.
pub trait Registry: Sized {
    /// Whether a primitive of this name is registered.  The default —
    /// an empty table — is meant to be overridden.
    open spec fn spec_has(&self, name: Seq<char>) -> bool {
        false
    }

    /// The stack and environment after the named primitive runs on the
    /// given stack and environment.  The default — every primitive
    /// leaves the context unchanged — is meant to be overridden.
    open spec fn spec_effect(
        &self,
        name: Seq<char>,
        stack: Seq<AbsValue>,
        env: Map<Seq<char>, AbsValue>,
    ) -> (Seq<AbsValue>, Map<Seq<char>, AbsValue>) {
        (stack, env)
    }

    /// Whether `name` is registered; used by the parser to bind words
    /// to builtins.
    fn contains(&self, name: &str) -> (r: bool)
        ensures
            r == self.spec_has(name@),
    ;

    /// Runs the named primitive with exclusive mutable access to the
    /// context.
    fn invoke(&self, name: &str, ctx: &mut Context)
        ensures
            (self.spec_effect(name@, old(ctx).stack@, old(ctx).env@)) == (
                final(ctx).stack@,
                final(ctx).env@,
            ),
    ;
}

} // verus!
