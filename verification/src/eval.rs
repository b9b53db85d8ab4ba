//! The evaluator: a single-pass interpreter over a value sequence,
//! maintaining an explicit stack and environment, with first-class
//! treatment of quotations as deferred, later-invocable code blocks.
//!
//! Failure-prone operations do not abort evaluation: an unresolved word
//! and an exhausted recursion budget are reported as typed faults, in
//! order of occurrence, and evaluation continues with the remaining
//! values.

use vstd::prelude::*;
use crate::context::Context;
use crate::registry::Registry;
use crate::value::AbsValue;
use crate::value::Value;
use crate::value::clone_values;
use crate::value::seq_view;

verus! {

broadcast use crate::value::lemma_seq_view;

/// A fault reported during evaluation: a word with no binding in the
/// environment, or a quotation invocation beyond the recursion budget.
/// Faults do not abort evaluation.
#[derive(Debug)]
pub enum EvalFault {
    WordNotFound(String),
    DepthExceeded,
}

/// The mathematical model of an [`EvalFault`].
pub enum AbsFault {
    WordNotFound(Seq<char>),
    DepthExceeded,
}

impl View for EvalFault {
    type V = AbsFault;

    open spec fn view(&self) -> AbsFault {
        match self {
            EvalFault::WordNotFound(w) => AbsFault::WordNotFound(w@),
            EvalFault::DepthExceeded => AbsFault::DepthExceeded,
        }
    }
}

impl DeepView for EvalFault {
    type V = AbsFault;

    open spec fn deep_view(&self) -> AbsFault {
        self.view()
    }
}

/// The evaluator's result on the remaining values `vals`, entered with
/// quotation nesting `level` and capture buffer `buf`, against the
/// given stack and environment: the final stack, the final environment,
/// and the faults reported, in order.
///
/// The quotation protocol: the outermost `QuoteOpen` starts buffering;
/// nested markers are buffered verbatim while the nesting counter moves;
/// the matching outermost `QuoteClose` pushes the buffered sequence as
/// one quotation value.  A `QuoteClose` with no open capture is ignored.
/// Outside a capture, a builtin is invoked through the registry, a word
/// is resolved against the environment (a quotation bound to it runs in
/// the same stack and environment with one less level of recursion
/// budget; a builtin bound to it is invoked; any other value is pushed;
/// an unbound word is reported and skipped), and every other value is
/// pushed onto the stack.
pub open spec fn eval_from<R: Registry>(
    vals: Seq<AbsValue>,
    level: nat,
    buf: Seq<AbsValue>,
    stack: Seq<AbsValue>,
    env: Map<Seq<char>, AbsValue>,
    reg: &R,
    depth: nat,
) -> (Seq<AbsValue>, Map<Seq<char>, AbsValue>, Seq<AbsFault>)
    decreases depth, vals.len(), 0int,
{
    if vals.len() == 0 {
        (stack, env, Seq::empty())
    } else {
        let v = vals[0];
        let rest = vals.drop_first();
        if v is QuoteOpen {
            if level == 0 {
                eval_from(rest, 1, Seq::empty(), stack, env, reg, depth)
            } else {
                eval_from(rest, level + 1, buf.push(v), stack, env, reg, depth)
            }
        } else if v is QuoteClose {
            if level == 0 {
                eval_from(rest, 0, buf, stack, env, reg, depth)
            } else if level == 1 {
                eval_from(rest, 0, buf, stack.push(AbsValue::Quotation(buf)), env, reg, depth)
            } else {
                eval_from(rest, (level - 1) as nat, buf.push(v), stack, env, reg, depth)
            }
        } else if level > 0 {
            eval_from(rest, level, buf.push(v), stack, env, reg, depth)
        } else {
            match v {
                AbsValue::Builtin(name) => {
                    let se = reg.spec_effect(name, stack, env);
                    eval_from(rest, 0, buf, se.0, se.1, reg, depth)
                },
                AbsValue::Word(w) => {
                    if env.contains_key(w) {
                        match env[w] {
                            AbsValue::Quotation(q) => {
                                if depth == 0 {
                                    let t = eval_from(rest, 0, buf, stack, env, reg, depth);
                                    (t.0, t.1, seq![AbsFault::DepthExceeded] + t.2)
                                } else {
                                    let m = eval_values(q, stack, env, reg, (depth - 1) as nat);
                                    let t = eval_from(rest, 0, buf, m.0, m.1, reg, depth);
                                    (t.0, t.1, m.2 + t.2)
                                }
                            },
                            AbsValue::Builtin(name) => {
                                let se = reg.spec_effect(name, stack, env);
                                eval_from(rest, 0, buf, se.0, se.1, reg, depth)
                            },
                            _ => eval_from(rest, 0, buf, stack.push(env[w]), env, reg, depth),
                        }
                    } else {
                        let t = eval_from(rest, 0, buf, stack, env, reg, depth);
                        (t.0, t.1, seq![AbsFault::WordNotFound(w)] + t.2)
                    }
                },
                _ => eval_from(rest, 0, buf, stack.push(v), env, reg, depth),
            }
        }
    }
}

/// The evaluator's result on a value sequence, entered outside any
/// quotation capture.
pub open spec fn eval_values<R: Registry>(
    vals: Seq<AbsValue>,
    stack: Seq<AbsValue>,
    env: Map<Seq<char>, AbsValue>,
    reg: &R,
    depth: nat,
) -> (Seq<AbsValue>, Map<Seq<char>, AbsValue>, Seq<AbsFault>)
    decreases depth, vals.len(), 1int,
{
    eval_from(vals, 0, Seq::empty(), stack, env, reg, depth)
}

/// Executes a value sequence against the context, as [`eval_values`]
/// says: builtins are invoked through `builtins`, quotations are
/// captured and later run in the same context, and `depth` bounds the
/// nesting of quotation invocations.  Returns the faults encountered,
/// in order; faults do not abort evaluation.
pub fn eval<R: Registry>(values: &Vec<Value>, ctx: &mut Context, builtins: &R, depth: u64) -> (r:
    Vec<EvalFault>)
    ensures
        ({
            let m = eval_values(
                seq_view(values@),
                old(ctx).stack@,
                old(ctx).env@,
                builtins,
                depth as nat,
            );
            final(ctx).stack@ == m.0 && final(ctx).env@ == m.1 && r.deep_view() == m.2
        }),
    decreases depth,
{
    let ghost vals_dv = seq_view(values@);
    let ghost target = eval_values(vals_dv, ctx.stack@, ctx.env@, builtins, depth as nat);
    let mut level: usize = 0;
    let mut buf: Vec<Value> = Vec::new();
    let mut faults: Vec<EvalFault> = Vec::new();
    let mut i: usize = 0;

    proof {
        assert(vals_dv.skip(0) =~= vals_dv);
        assert(seq_view(buf@) =~= Seq::<AbsValue>::empty());
        assert(faults.deep_view() =~= Seq::<AbsFault>::empty());
        let m = eval_from(
            vals_dv,
            0,
            Seq::empty(),
            ctx.stack@,
            ctx.env@,
            builtins,
            depth as nat,
        );
        assert(faults.deep_view() + m.2 =~= m.2);
    }

    while i < values.len()
        invariant
            i <= values@.len(),
            level <= i,
            vals_dv == seq_view(values@),
            ({
                let m = eval_from(
                    vals_dv.skip(i as int),
                    level as nat,
                    seq_view(buf@),
                    ctx.stack@,
                    ctx.env@,
                    builtins,
                    depth as nat,
                );
                target.0 == m.0 && target.1 == m.1 && target.2 == faults.deep_view() + m.2
            }),
        decreases values@.len() - i,
    {
        proof {
            assert(vals_dv.skip(i as int)[0] == vals_dv[i as int]);
            assert(vals_dv.skip(i as int).drop_first() =~= vals_dv.skip(i as int + 1));
            assert(vals_dv[i as int] == values@[i as int]@);
        }
        let ghost prev_faults = faults.deep_view();
        let ghost prev_buf = seq_view(buf@);

        let v = &values[i];
        match v {
            Value::QuoteOpen => {
                if level == 0 {
                    buf = Vec::new();
                    level = 1;
                    proof {
                        assert(seq_view(buf@) =~= Seq::<AbsValue>::empty());
                    }
                } else {
                    level = level + 1;
                    buf.push(Value::QuoteOpen);
                    proof {
                        assert(seq_view(buf@) =~= prev_buf.push(AbsValue::QuoteOpen));
                    }
                }
            },
            Value::QuoteClose => {
                if level == 0 {
                    // stray marker outside any capture: ignored
                } else if level == 1 {
                    level = 0;
                    ctx.stack.push(Value::Quotation(clone_values(&buf)));
                } else {
                    level = level - 1;
                    buf.push(Value::QuoteClose);
                    proof {
                        assert(seq_view(buf@) =~= prev_buf.push(AbsValue::QuoteClose));
                    }
                }
            },
            _ => {
                if level > 0 {
                    buf.push(v.clone());
                    proof {
                        assert(seq_view(buf@) =~= prev_buf.push(values@[i as int]@));
                    }
                } else {
                    match v {
                        Value::Builtin(b) => {
                            builtins.invoke(b.name.as_str(), ctx);
                        },
                        Value::Word(w) => {
                            let looked: Option<Value> = match ctx.env.get(w.as_str()) {
                                Some(bound) => Some(bound.clone()),
                                None => None,
                            };
                            match looked {
                                Some(Value::Quotation(q)) => {
                                    if depth == 0 {
                                        faults.push(EvalFault::DepthExceeded);
                                    } else {
                                        proof {
                                            assert(q.deep_view() =~= seq_view(q@));
                                        }
                                        let mut sub = eval(&q, ctx, builtins, depth - 1);
                                        let ghost mid_faults = faults.deep_view();
                                        let ghost sub_dv = sub.deep_view();
                                        faults.append(&mut sub);
                                        proof {
                                            assert(faults.deep_view() =~= mid_faults + sub_dv);
                                        }
                                    }
                                },
                                Some(Value::Builtin(b)) => {
                                    builtins.invoke(b.name.as_str(), ctx);
                                },
                                Some(other) => {
                                    ctx.stack.push(other);
                                },
                                None => {
                                    faults.push(EvalFault::WordNotFound(w.clone()));
                                },
                            }
                        },
                        _ => {
                            ctx.stack.push(v.clone());
                        },
                    }
                }
            },
        }

        proof {
            assert forall|f: AbsFault, more: Seq<AbsFault>|
                prev_faults + (seq![f] + more) =~= prev_faults.push(f) + more by {}
            assert forall|a: Seq<AbsFault>, b2: Seq<AbsFault>, c: Seq<AbsFault>|
                a + (b2 + c) =~= (a + b2) + c by {}
            if faults.deep_view().len() == prev_faults.len() + 1 {
                assert(faults.deep_view() =~= prev_faults.push(faults@.last()@));
            }
        }
        i = i + 1;
    }
    proof {
        assert(vals_dv.skip(i as int) =~= Seq::<AbsValue>::empty());
        assert(faults.deep_view() + Seq::<AbsFault>::empty() =~= faults.deep_view());
    }
    faults
}

} // verus!
