//! Laws of the interpreter: properties that relate the tokenizer, the
//! parser and the evaluator, stated over their specification functions
//! and proved once and for all.

use vstd::prelude::*;
use crate::builtins::CoreBuiltins;
use crate::builtins::bind_effect;
use crate::eval::AbsFault;
use crate::eval::eval_from;
use crate::eval::eval_values;
use crate::parse::classify_word;
use crate::parse::int_literal;
use crate::parse::is_float_literal;
use crate::parse::parse_from;
use crate::parse::parse_tokens;
use crate::registry::Registry;
use crate::token::AbsToken;
use crate::token::lex;
use crate::value::AbsValue;

verus! {

broadcast use vstd::seq::axiom_seq_add_index1, vstd::seq::axiom_seq_add_index2;

/// The parser yields exactly one value per token.
pub proof fn lemma_parse_len<R: Registry>(
    toks: Seq<AbsToken>,
    tbl: Map<Seq<char>, nat>,
    next: nat,
    reg: &R,
)
    ensures
        parse_from(toks, tbl, next, reg).len() == toks.len(),
    decreases toks.len(),
{
    if toks.len() > 0 {
        match toks[0] {
            AbsToken::Symbol(s) => {
                if tbl.contains_key(s) {
                    lemma_parse_len(toks.drop_first(), tbl, next, reg);
                } else {
                    lemma_parse_len(toks.drop_first(), tbl.insert(s, next), next + 1, reg);
                }
            },
            AbsToken::Text(s) => {
                lemma_parse_len(toks.drop_first(), tbl, next, reg);
            },
            AbsToken::Word(w) => {
                lemma_parse_len(toks.drop_first(), tbl, next, reg);
            },
        }
    }
}

/// A symbol token whose text is already interned resolves to the
/// interned id, wherever it stands.
proof fn lemma_parse_symbol_id<R: Registry>(
    toks: Seq<AbsToken>,
    tbl: Map<Seq<char>, nat>,
    next: nat,
    reg: &R,
    s: Seq<char>,
    p: int,
)
    requires
        tbl.contains_key(s),
        0 <= p < toks.len(),
        toks[p] == AbsToken::Symbol(s),
    ensures
        parse_from(toks, tbl, next, reg)[p] == (AbsValue::Symbol { id: tbl[s], name: s }),
    decreases toks.len(),
{
    lemma_parse_len(toks.drop_first(), tbl, next, reg);
    if p == 0 {
    } else {
        match toks[0] {
            AbsToken::Symbol(s0) => {
                if tbl.contains_key(s0) {
                    lemma_parse_symbol_id(toks.drop_first(), tbl, next, reg, s, p - 1);
                } else {
                    let tbl2 = tbl.insert(s0, next);
                    assert(s0 != s);
                    assert(tbl2[s] == tbl[s]);
                    lemma_parse_symbol_id(toks.drop_first(), tbl2, next + 1, reg, s, p - 1);
                    lemma_parse_len(toks.drop_first(), tbl2, next + 1, reg);
                }
            },
            AbsToken::Text(s0) => {
                lemma_parse_symbol_id(toks.drop_first(), tbl, next, reg, s, p - 1);
            },
            AbsToken::Word(w) => {
                lemma_parse_symbol_id(toks.drop_first(), tbl, next, reg, s, p - 1);
            },
        }
    }
}

/// Interning: two occurrences of the same symbol text within one parse
/// resolve to the same symbol — the same id and the same name.
pub proof fn lemma_symbol_interning<R: Registry>(
    toks: Seq<AbsToken>,
    reg: &R,
    s: Seq<char>,
    a: int,
    b: int,
)
    requires
        0 <= a < toks.len(),
        0 <= b < toks.len(),
        toks[a] == AbsToken::Symbol(s),
        toks[b] == AbsToken::Symbol(s),
    ensures
        parse_tokens(toks, reg)[a] == parse_tokens(toks, reg)[b],
        parse_tokens(toks, reg)[a] matches AbsValue::Symbol { id, name: n } && n == s,
{
    lemma_interning_from(toks, Map::empty(), 0, reg, s, a);
    lemma_interning_from(toks, Map::empty(), 0, reg, s, b);
}

/// Every occurrence of one symbol text resolves to the id that the
/// table holds for it, or to the id it is about to be interned under.
proof fn lemma_interning_from<R: Registry>(
    toks: Seq<AbsToken>,
    tbl: Map<Seq<char>, nat>,
    next: nat,
    reg: &R,
    s: Seq<char>,
    a: int,
)
    requires
        0 <= a < toks.len(),
        toks[a] == AbsToken::Symbol(s),
    ensures
        parse_from(toks, tbl, next, reg)[a] == (AbsValue::Symbol {
            id: interned_id(toks, tbl, next, s),
            name: s,
        }),
    decreases toks.len(),
{
    lemma_parse_len(toks.drop_first(), tbl, next, reg);
    let out = parse_from(toks, tbl, next, reg);
    let want = interned_id(toks, tbl, next, s);
    if tbl.contains_key(s) {
        lemma_parse_symbol_id(toks, tbl, next, reg, s, a);
        assert(want == tbl[s]);
        assert(out[a] == (AbsValue::Symbol { id: want, name: s }));
    } else {
        match toks[0] {
            AbsToken::Symbol(s0) => {
                if tbl.contains_key(s0) {
                    lemma_interning_from(toks.drop_first(), tbl, next, reg, s, a - 1);
                    assert(out[a] == (AbsValue::Symbol { id: want, name: s }));
                } else {
                    let tbl2 = tbl.insert(s0, next);
                    let rest_out = parse_from(toks.drop_first(), tbl2, next + 1, reg);
                    lemma_parse_len(toks.drop_first(), tbl2, next + 1, reg);
                    assert(out == seq![AbsValue::Symbol { id: next, name: s0 }] + rest_out);
                    if s0 == s {
                        if a == 0 {
                            assert(out[a] == (AbsValue::Symbol { id: want, name: s }));
                        } else {
                            lemma_parse_symbol_id(toks.drop_first(), tbl2, next + 1, reg, s, a - 1);
                            assert((seq![AbsValue::Symbol { id: next, name: s0 }] + rest_out)[a]
                                == rest_out[a - 1]);
                            assert(out[a] == (AbsValue::Symbol { id: want, name: s }));
                        }
                    } else {
                        lemma_interning_from(toks.drop_first(), tbl2, next + 1, reg, s, a - 1);
                        assert((seq![AbsValue::Symbol { id: next, name: s0 }] + rest_out)[a]
                            == rest_out[a - 1]);
                        assert(out[a] == (AbsValue::Symbol { id: want, name: s }));
                    }
                }
            },
            AbsToken::Text(s0) => {
                lemma_interning_from(toks.drop_first(), tbl, next, reg, s, a - 1);
                assert(out[a] == (AbsValue::Symbol { id: want, name: s }));
            },
            AbsToken::Word(w) => {
                lemma_interning_from(toks.drop_first(), tbl, next, reg, s, a - 1);
                assert(out[a] == (AbsValue::Symbol { id: want, name: s }));
            },
        }
    }
}

/// The id that the symbol text `s` is, or will be, interned under while
/// the remaining tokens are parsed.
pub open spec fn interned_id(
    toks: Seq<AbsToken>,
    tbl: Map<Seq<char>, nat>,
    next: nat,
    s: Seq<char>,
) -> nat
    decreases toks.len(),
{
    if tbl.contains_key(s) {
        tbl[s]
    } else if toks.len() == 0 {
        next
    } else {
        match toks[0] {
            AbsToken::Symbol(s0) => {
                if s0 == s && !tbl.contains_key(s0) {
                    next
                } else if tbl.contains_key(s0) {
                    interned_id(toks.drop_first(), tbl, next, s)
                } else {
                    interned_id(toks.drop_first(), tbl.insert(s0, next), next + 1, s)
                }
            },
            _ => interned_id(toks.drop_first(), tbl, next, s),
        }
    }
}

/// Determinism of tokenizing: the tokens a source text yields are a
/// function of its characters alone, so tokenizing the same text twice
/// yields equal results.
pub proof fn lemma_tokenize_deterministic(s1: Seq<char>, s2: Seq<char>)
    requires
        s1 == s2,
    ensures
        lex(s1) == lex(s2),
{
}

/// Determinism of parsing: the values a token sequence yields are a
/// function of the tokens alone, so parsing the same tokens twice
/// yields structurally equal value sequences — symbol ids included,
/// since ids are assigned in interning order within each parse.
pub proof fn lemma_parse_deterministic<R: Registry>(t1: Seq<AbsToken>, t2: Seq<AbsToken>, reg: &R)
    requires
        t1 == t2,
    ensures
        parse_tokens(t1, reg) == parse_tokens(t2, reg),
{
}

/// A word that no classification matches — no integer literal, no
/// float literal, no boolean literal, no quotation marker, no
/// registered builtin name — parses to an unresolved word, unchanged.
pub proof fn lemma_word_falls_through<R: Registry>(w: Seq<char>, reg: &R)
    requires
        int_literal(w) is None,
        !is_float_literal(w),
        w != seq!['#', 't'],
        w != seq!['#', 'f'],
        w != seq!['{'],
        w != seq!['}'],
        !reg.spec_has(w),
    ensures
        classify_word(w, reg) == AbsValue::Word(w),
{
}

/// The number of quotation-opening markers in the sequence.
pub open spec fn opens(vals: Seq<AbsValue>) -> int
    decreases vals.len(),
{
    if vals.len() == 0 {
        0
    } else {
        (if vals[0] is QuoteOpen {
            1int
        } else {
            0int
        }) + opens(vals.drop_first())
    }
}

/// The number of quotation-closing markers in the sequence.
pub open spec fn closes(vals: Seq<AbsValue>) -> int
    decreases vals.len(),
{
    if vals.len() == 0 {
        0
    } else {
        (if vals[0] is QuoteClose {
            1int
        } else {
            0int
        }) + closes(vals.drop_first())
    }
}

/// While a capture is open (`level >= 1`) and the body never closes
/// more markers than it has opened, every value of the body — nested
/// markers included — is buffered verbatim, and the stack, the
/// environment and the faults are untouched.
proof fn lemma_capture_buffers<R: Registry>(
    body: Seq<AbsValue>,
    tail: Seq<AbsValue>,
    level: nat,
    buf: Seq<AbsValue>,
    stack: Seq<AbsValue>,
    env: Map<Seq<char>, AbsValue>,
    reg: &R,
    depth: nat,
)
    requires
        level >= 1,
        forall|k: int|
            0 <= k <= body.len() ==> closes(#[trigger] body.take(k)) <= opens(body.take(k))
                + level - 1,
    ensures
        eval_from(body + tail, level, buf, stack, env, reg, depth) == eval_from(
            tail,
            (level + opens(body) - closes(body)) as nat,
            buf + body,
            stack,
            env,
            reg,
            depth,
        ),
    decreases body.len(),
{
    reveal_with_fuel(opens, 3);
    reveal_with_fuel(closes, 3);
    if body.len() == 0 {
        assert(body + tail =~= tail);
        assert(buf + body =~= buf);
    } else {
        let v = body[0];
        let rest2 = body.drop_first();
        assert(body.take(1) =~= seq![v]);
        assert(seq![v].drop_first() =~= Seq::<AbsValue>::empty());
        assert((body + tail)[0] == v);
        assert((body + tail).drop_first() =~= rest2 + tail);
        assert(body.take(body.len() as int) =~= body);

        let newlevel: int = if v is QuoteOpen {
            level + 1int
        } else if v is QuoteClose {
            level - 1int
        } else {
            level as int
        };
        if v is QuoteClose {
            assert(closes(body.take(1)) == 1 && opens(body.take(1)) == 0);
            assert(level >= 2);
        }
        assert(newlevel >= 1);

        assert forall|k: int|
            0 <= k <= rest2.len() implies closes(#[trigger] rest2.take(k)) <= opens(
            rest2.take(k),
        ) + newlevel - 1 by {
            assert(body.take(k + 1) =~= seq![v] + rest2.take(k));
            assert((seq![v] + rest2.take(k))[0] == v);
            assert((seq![v] + rest2.take(k)).drop_first() =~= rest2.take(k));
            assert(closes(body.take(k + 1)) <= opens(body.take(k + 1)) + level - 1);
        }

        lemma_capture_buffers(
            rest2,
            tail,
            newlevel as nat,
            buf.push(v),
            stack,
            env,
            reg,
            depth,
        );
        assert(buf.push(v) + rest2 =~= buf + body);
        assert(opens(body) == (if v is QuoteOpen {
            1int
        } else {
            0int
        }) + opens(rest2));
        assert(closes(body) == (if v is QuoteClose {
            1int
        } else {
            0int
        }) + closes(rest2));
    }
}

/// Quotation capture is exactly balanced: evaluating a marker-bracketed
/// body whose own markers are balanced — no prefix closes more than it
/// opens, and the whole body opens as many as it closes — pushes one
/// quotation holding the body verbatim, nested markers included, and
/// touches nothing else.
pub proof fn lemma_quotation_capture<R: Registry>(
    body: Seq<AbsValue>,
    stack: Seq<AbsValue>,
    env: Map<Seq<char>, AbsValue>,
    reg: &R,
    depth: nat,
)
    requires
        forall|k: int|
            0 <= k <= body.len() ==> closes(#[trigger] body.take(k)) <= opens(body.take(k)),
        opens(body) == closes(body),
    ensures
        eval_values(
            seq![AbsValue::QuoteOpen] + body + seq![AbsValue::QuoteClose],
            stack,
            env,
            reg,
            depth,
        ) == (stack.push(AbsValue::Quotation(body)), env, Seq::<AbsFault>::empty()),
{
    reveal_with_fuel(eval_from, 4);
    reveal_with_fuel(opens, 2);
    reveal_with_fuel(closes, 2);
    let full = seq![AbsValue::QuoteOpen] + body + seq![AbsValue::QuoteClose];
    assert(full[0] == AbsValue::QuoteOpen);
    assert(full.drop_first() =~= body + seq![AbsValue::QuoteClose]);
    lemma_capture_buffers(
        body,
        seq![AbsValue::QuoteClose],
        1,
        Seq::empty(),
        stack,
        env,
        reg,
        depth,
    );
    assert(Seq::<AbsValue>::empty() + body =~= body);
    assert(seq![AbsValue::QuoteClose].drop_first() =~= Seq::<AbsValue>::empty());
    assert(eval_from(
        seq![AbsValue::QuoteClose],
        1,
        body,
        stack,
        env,
        reg,
        depth,
    ) == (stack.push(AbsValue::Quotation(body)), env, Seq::<AbsFault>::empty()));
}

/// Invoking a bound quotation through its word runs the quotation's
/// contents in the same context: on the same stack and environment,
/// with one less level of recursion budget, and every effect it has on
/// them is kept.
pub proof fn lemma_quotation_shares_context<R: Registry>(
    w: Seq<char>,
    q: Seq<AbsValue>,
    stack: Seq<AbsValue>,
    env: Map<Seq<char>, AbsValue>,
    reg: &R,
    depth: nat,
)
    requires
        env.contains_key(w),
        env[w] == AbsValue::Quotation(q),
        depth >= 1,
    ensures
        eval_values(seq![AbsValue::Word(w)], stack, env, reg, depth) == eval_values(
            q,
            stack,
            env,
            reg,
            (depth - 1) as nat,
        ),
{
    let vals = seq![AbsValue::Word(w)];
    let rest = vals.drop_first();
    assert(rest =~= Seq::<AbsValue>::empty());
    let m = eval_values(q, stack, env, reg, (depth - 1) as nat);
    assert(eval_from(rest, 0, Seq::empty(), m.0, m.1, reg, depth) == (
        m.0,
        m.1,
        Seq::<AbsFault>::empty(),
    ));
    assert(m.2 + Seq::<AbsFault>::empty() =~= m.2);
    assert(eval_values(vals, stack, env, reg, depth) == (m.0, m.1, m.2));
    assert(m == (m.0, m.1, m.2));
}

/// Binding then retrieval: pushing a value, binding it to a symbol's
/// name with `@`, and then referring to the name as a word leaves the
/// value on the stack and the binding in the environment.  The law
/// holds for every value that evaluates to itself — one that is no
/// quotation marker and no builtin, word or quotation, which the
/// evaluator treats specially.
pub proof fn lemma_bind_then_lookup(
    v: AbsValue,
    id: nat,
    name: Seq<char>,
    stack: Seq<AbsValue>,
    env: Map<Seq<char>, AbsValue>,
    reg: &CoreBuiltins,
    depth: nat,
)
    requires
        !(v is QuoteOpen),
        !(v is QuoteClose),
        !(v is Builtin),
        !(v is Word),
        !(v is Quotation),
    ensures
        eval_values(
            seq![
                v,
                AbsValue::Symbol { id, name },
                AbsValue::Builtin("@"@),
                AbsValue::Word(name),
            ],
            stack,
            env,
            reg,
            depth,
        ) == (stack.push(v), env.insert(name, v), Seq::<AbsFault>::empty()),
{
    reveal_with_fuel(eval_from, 6);
    let sym = AbsValue::Symbol { id, name };
    let vals = seq![v, sym, AbsValue::Builtin("@"@), AbsValue::Word(name)];
    let s1 = stack.push(v);
    let s2 = s1.push(sym);
    let env2 = env.insert(name, v);

    assert(vals.drop_first() =~= seq![sym, AbsValue::Builtin("@"@), AbsValue::Word(name)]);
    let vals2 = seq![sym, AbsValue::Builtin("@"@), AbsValue::Word(name)];
    assert(vals2.drop_first() =~= seq![AbsValue::Builtin("@"@), AbsValue::Word(name)]);
    let vals3 = seq![AbsValue::Builtin("@"@), AbsValue::Word(name)];
    assert(vals3.drop_first() =~= seq![AbsValue::Word(name)]);
    let vals4 = seq![AbsValue::Word(name)];
    assert(vals4.drop_first() =~= Seq::<AbsValue>::empty());

    assert(s2.len() >= 2);
    assert(s2.last() == sym);
    assert(s2[s2.len() - 2] == v);
    assert(s2.drop_last().drop_last() =~= stack);
    assert(bind_effect(s2, env) == (stack, env2));

    assert(env2.contains_key(name) && env2[name] == v);

    let b0 = eval_from(vals, 0, Seq::empty(), stack, env, reg, depth);
    assert(vals[0] == v && vals.len() == 4);
    assert(b0 == eval_from(vals2, 0, Seq::empty(), s1, env, reg, depth));
    let b1 = eval_from(vals2, 0, Seq::empty(), s1, env, reg, depth);
    assert(vals2[0] == sym);
    assert(b1 == eval_from(vals3, 0, Seq::empty(), s2, env, reg, depth));
    let b2 = eval_from(vals3, 0, Seq::empty(), s2, env, reg, depth);
    assert(vals3[0] == AbsValue::Builtin("@"@));
    assert(reg.spec_effect("@"@, s2, env) == bind_effect(s2, env));
    assert(b2 == eval_from(vals4, 0, Seq::empty(), stack, env2, reg, depth));
    assert(eval_from(vals4, 0, Seq::empty(), stack, env2, reg, depth) == (
        s1,
        env2,
        Seq::<AbsFault>::empty(),
    ));
    assert(eval_values(vals, stack, env, reg, depth) == b0);
}

} // verus!
