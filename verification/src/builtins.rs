//! A registry of example builtins: the binding primitive `@`, the stack
//! shuffler `swap`, and the vector primitives `make-vec`, `vpush!` and
//! `vget`.  Each manages its own stack arity; popping from a stack that
//! is too short, or operating on a value of the wrong variant, degrades
//! to the documented lesser effect instead of failing.
//!
//! Hosts that want further primitives (say, printing ones) wrap or
//! replace this table with a registry of their own.

use vstd::prelude::*;
use crate::context::Context;
use crate::registry::Registry;
use crate::value::AbsValue;
use crate::value::Value;

verus! {

broadcast use crate::value::lemma_seq_view;

/// The effect of `@`: pops a symbol, then a value under it, and binds
/// the symbol's name to the value.  Both operands are consumed even
/// when the first is no symbol (the binding is then skipped).  On a
/// stack with fewer than two values, nothing happens.
pub open spec fn bind_effect(stack: Seq<AbsValue>, env: Map<Seq<char>, AbsValue>) -> (
    Seq<AbsValue>,
    Map<Seq<char>, AbsValue>,
) {
    if stack.len() >= 2 {
        let sym = stack.last();
        let val = stack[stack.len() - 2];
        let rest = stack.drop_last().drop_last();
        match sym {
            AbsValue::Symbol { id, name } => (rest, env.insert(name, val)),
            _ => (rest, env),
        }
    } else {
        (stack, env)
    }
}

/// The effect of `swap`: exchanges the two topmost values.  On a stack
/// with fewer than two values, nothing happens.
pub open spec fn swap_effect(stack: Seq<AbsValue>) -> Seq<AbsValue> {
    if stack.len() >= 2 {
        let top = stack.last();
        let under = stack[stack.len() - 2];
        stack.drop_last().drop_last().push(top).push(under)
    } else {
        stack
    }
}

/// The effect of `make-vec`: pushes a fresh empty vector.
pub open spec fn makevec_effect(stack: Seq<AbsValue>) -> Seq<AbsValue> {
    stack.push(AbsValue::VecOf(Seq::empty()))
}

/// The effect of `vpush!`: pops a value, then a vector under it, and
/// pushes the vector extended by the value.  When the second operand is
/// no vector it is pushed back unchanged (the popped value is dropped).
/// On a stack with fewer than two values, nothing happens.
pub open spec fn vpush_effect(stack: Seq<AbsValue>) -> Seq<AbsValue> {
    if stack.len() >= 2 {
        let val = stack.last();
        let target = stack[stack.len() - 2];
        let rest = stack.drop_last().drop_last();
        match target {
            AbsValue::VecOf(items) => rest.push(AbsValue::VecOf(items.push(val))),
            _ => rest.push(target),
        }
    } else {
        stack
    }
}

/// The effect of `vget`: pops an index, then a vector under it, and
/// pushes the element at the index.  Both operands are consumed; when
/// they are not an integer over a vector, or the index is out of
/// bounds, nothing is pushed.  On a stack with fewer than two values,
/// nothing happens.
pub open spec fn vget_effect(stack: Seq<AbsValue>) -> Seq<AbsValue> {
    if stack.len() >= 2 {
        let at = stack.last();
        let target = stack[stack.len() - 2];
        let rest = stack.drop_last().drop_last();
        if at matches AbsValue::Int(n) && target matches AbsValue::VecOf(items) && 0 <= n
            < items.len() {
            rest.push(target->VecOf_0[at->Int_0])
        } else {
            rest
        }
    } else {
        stack
    }
}

/// The table of example builtins.
pub struct CoreBuiltins {}

impl CoreBuiltins {
    /// A fresh table.
    pub fn new() -> (r: Self) {
        CoreBuiltins {  }
    }

    /// Pops a symbol and a value and binds the name, as
    /// [`bind_effect`] says.
    fn run_bind(&self, ctx: &mut Context)
        ensures
            (final(ctx).stack@, final(ctx).env@) == bind_effect(old(ctx).stack@, old(ctx).env@),
    {
        match ctx.stack.pop() {
            Some(sym) => {
                match ctx.stack.pop() {
                    Some(val) => {
                        if let Value::Symbol(s) = sym {
                            ctx.env.insert(s.name.as_str(), val);
                        }
                    },
                    None => {
                        // only one value: put it back, bind nothing
                        ctx.stack.push(sym);
                        proof {
                            assert(ctx.stack@ =~= old(ctx).stack@);
                        }
                    },
                }
            },
            None => {},
        }
    }

    /// Exchanges the two topmost values, as [`swap_effect`] says.
    fn run_swap(&self, ctx: &mut Context)
        ensures
            final(ctx).stack@ == swap_effect(old(ctx).stack@),
            final(ctx).env@ == old(ctx).env@,
    {
        match ctx.stack.pop() {
            Some(top) => {
                match ctx.stack.pop() {
                    Some(under) => {
                        ctx.stack.push(top);
                        ctx.stack.push(under);
                    },
                    None => {
                        ctx.stack.push(top);
                        proof {
                            assert(ctx.stack@ =~= old(ctx).stack@);
                        }
                    },
                }
            },
            None => {},
        }
    }

    /// Pushes a fresh empty vector, as [`makevec_effect`] says.
    fn run_makevec(&self, ctx: &mut Context)
        ensures
            final(ctx).stack@ == makevec_effect(old(ctx).stack@),
            final(ctx).env@ == old(ctx).env@,
    {
        ctx.stack.push(Value::Vector(Vec::new()));
    }

    /// Pops a value and a vector and pushes the extended vector, as
    /// [`vpush_effect`] says.
    fn run_vpush(&self, ctx: &mut Context)
        ensures
            final(ctx).stack@ == vpush_effect(old(ctx).stack@),
            final(ctx).env@ == old(ctx).env@,
    {
        match ctx.stack.pop() {
            Some(val) => {
                match ctx.stack.pop() {
                    Some(mut target) => {
                        let ghost val_model = val@;
                        match &mut target {
                            Value::Vector(items) => {
                                let ghost items_prev = items@;
                                items.push(val);
                                proof {
                                    assert(items@.drop_last() =~= items_prev);
                                }
                            },
                            _ => {},
                        }
                        ctx.stack.push(target);
                    },
                    None => {
                        ctx.stack.push(val);
                        proof {
                            assert(ctx.stack@ =~= old(ctx).stack@);
                        }
                    },
                }
            },
            None => {},
        }
    }

    /// Pops an index and a vector and pushes the indexed element, as
    /// [`vget_effect`] says.
    fn run_vget(&self, ctx: &mut Context)
        ensures
            final(ctx).stack@ == vget_effect(old(ctx).stack@),
            final(ctx).env@ == old(ctx).env@,
    {
        match ctx.stack.pop() {
            Some(at) => {
                match ctx.stack.pop() {
                    Some(target) => {
                        if let Value::Int(n) = &at {
                            if let Value::Vector(items) = &target {
                                proof {
                                    crate::value::lemma_seq_view(items@);
                                }
                                let n = *n;
                                if 0 <= n && (n as u64) < (items.len() as u64) {
                                    let elem = items[n as usize].clone();
                                    ctx.stack.push(elem);
                                }
                            }
                        }
                    },
                    None => {
                        ctx.stack.push(at);
                        proof {
                            assert(ctx.stack@ =~= old(ctx).stack@);
                        }
                    },
                }
            },
            None => {},
        }
    }
}

/// Whether two strings hold the same characters.
fn str_eq(a: &str, b: &str) -> (r: bool)
    ensures
        r == (a@ == b@),
{
    let sa = String::from_str(a);
    let sb = String::from_str(b);
    sa == sb
}

impl Registry for CoreBuiltins {
    open spec fn spec_has(&self, name: Seq<char>) -> bool {
        ||| name == "@"@
        ||| name == "swap"@
        ||| name == "make-vec"@
        ||| name == "vpush!"@
        ||| name == "vget"@
    }

    open spec fn spec_effect(
        &self,
        name: Seq<char>,
        stack: Seq<AbsValue>,
        env: Map<Seq<char>, AbsValue>,
    ) -> (Seq<AbsValue>, Map<Seq<char>, AbsValue>) {
        if name == "@"@ {
            bind_effect(stack, env)
        } else if name == "swap"@ {
            (swap_effect(stack), env)
        } else if name == "make-vec"@ {
            (makevec_effect(stack), env)
        } else if name == "vpush!"@ {
            (vpush_effect(stack), env)
        } else if name == "vget"@ {
            (vget_effect(stack), env)
        } else {
            (stack, env)
        }
    }

    fn contains(&self, name: &str) -> (r: bool)
        ensures
            r == self.spec_has(name@),
    {
        str_eq(name, "@") || str_eq(name, "swap") || str_eq(name, "make-vec") || str_eq(
            name,
            "vpush!",
        ) || str_eq(name, "vget")
    }

    fn invoke(&self, name: &str, ctx: &mut Context)
        ensures
            (self.spec_effect(name@, old(ctx).stack@, old(ctx).env@)) == (
                final(ctx).stack@,
                final(ctx).env@,
            ),
    {
        if str_eq(name, "@") {
            self.run_bind(ctx);
        } else if str_eq(name, "swap") {
            self.run_swap(ctx);
        } else if str_eq(name, "make-vec") {
            self.run_makevec(ctx);
        } else if str_eq(name, "vpush!") {
            self.run_vpush(ctx);
        } else if str_eq(name, "vget") {
            self.run_vget(ctx);
        }
    }
}

} // verus!
