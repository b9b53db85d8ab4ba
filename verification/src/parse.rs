//! The parser: resolves tokens into typed runtime values, interning
//! symbols into a parse-local symbol table and classifying words, in
//! order, as integer literal, float literal, boolean literal, quotation
//! marker, registered builtin, or unresolved word.

use vstd::prelude::*;
use crate::registry::Registry;
use crate::token::AbsToken;
use crate::token::Error;
use crate::token::Token;
use crate::value::AbsValue;
use crate::value::Builtin;
use crate::value::Symbol;
use crate::value::Value;

verus! {

/// Whether `c` is an ASCII decimal digit.
pub open spec fn is_digit(c: char) -> bool {
    '0' <= c && c <= '9'
}

/// The numeric value of the digit `c`.
pub open spec fn digit_of(c: char) -> int {
    c as u32 - '0' as u32
}

/// The first position at or after `i` that does not hold a digit.
pub open spec fn digits_end(s: Seq<char>, i: int) -> int
    decreases s.len() - i when 0 <= i <= s.len()
{
    if i < s.len() && is_digit(s[i]) {
        digits_end(s, i + 1)
    } else {
        i
    }
}

/// `digits_end` bounds its result and everything before it is a digit.
pub proof fn lemma_digits_end(s: Seq<char>, i: int)
    requires
        0 <= i <= s.len(),
    ensures
        i <= digits_end(s, i) <= s.len(),
        forall|k: int| i <= k < digits_end(s, i) ==> is_digit(s[k]),
        digits_end(s, i) < s.len() ==> !is_digit(s[digits_end(s, i)]),
    decreases s.len() - i,
{
    if i < s.len() && is_digit(s[i]) {
        lemma_digits_end(s, i + 1);
    }
}

/// One past the sign at `i`, if there is one.
pub open spec fn sign_end(s: Seq<char>, i: int) -> int {
    if i < s.len() && (s[i] == '+' || s[i] == '-') {
        i + 1
    } else {
        i
    }
}

/// The decimal value of a digit sequence.
pub open spec fn digits_val(s: Seq<char>) -> int
    decreases s,
{
    if s.len() == 0 {
        0
    } else {
        digits_val(s.drop_last()) * 10 + digit_of(s.last())
    }
}

/// A digit sequence has a non-negative value.
pub proof fn lemma_digits_val_nonneg(s: Seq<char>)
    requires
        forall|k: int| 0 <= k < s.len() ==> is_digit(s[k]),
    ensures
        digits_val(s) >= 0,
    decreases s,
{
    if s.len() > 0 {
        lemma_digits_val_nonneg(s.drop_last());
    }
}

/// Extending a digit sequence never lowers its value.
pub proof fn lemma_digits_val_mono(s: Seq<char>, j: int)
    requires
        0 <= j <= s.len(),
        forall|k: int| 0 <= k < s.len() ==> is_digit(s[k]),
    ensures
        digits_val(s.take(j)) <= digits_val(s),
    decreases s,
{
    if j == s.len() {
        assert(s.take(j) =~= s);
    } else {
        assert(s.drop_last().take(j) =~= s.take(j));
        lemma_digits_val_mono(s.drop_last(), j);
        lemma_digits_val_nonneg(s.drop_last());
    }
}

/// The integer that the text denotes, if the text is a valid integer
/// literal: an optional sign, then one or more digits, with a value in
/// the range of `i64`.
pub open spec fn int_literal(s: Seq<char>) -> Option<int> {
    let b = sign_end(s, 0);
    if b < s.len() && digits_end(s, b) == s.len() {
        let m = digits_val(s.skip(b));
        let v: int = if s[0] == '-' {
            -m
        } else {
            m
        };
        if i64::MIN <= v <= i64::MAX {
            Some(v)
        } else {
            None
        }
    } else {
        None
    }
}

/// Case-insensitive comparison with one letter.
pub open spec fn char_ci_eq(c: char, lo: char, up: char) -> bool {
    c == lo || c == up
}

/// The text `inf`, in any case.
pub open spec fn is_inf(t: Seq<char>) -> bool {
    t.len() == 3 && char_ci_eq(t[0], 'i', 'I') && char_ci_eq(t[1], 'n', 'N') && char_ci_eq(
        t[2],
        'f',
        'F',
    )
}

/// The text `infinity`, in any case.
pub open spec fn is_infinity(t: Seq<char>) -> bool {
    t.len() == 8 && char_ci_eq(t[0], 'i', 'I') && char_ci_eq(t[1], 'n', 'N') && char_ci_eq(
        t[2],
        'f',
        'F',
    ) && char_ci_eq(t[3], 'i', 'I') && char_ci_eq(t[4], 'n', 'N') && char_ci_eq(t[5], 'i', 'I')
        && char_ci_eq(t[6], 't', 'T') && char_ci_eq(t[7], 'y', 'Y')
}

/// The text `nan`, in any case.
pub open spec fn is_nan(t: Seq<char>) -> bool {
    t.len() == 3 && char_ci_eq(t[0], 'n', 'N') && char_ci_eq(t[1], 'a', 'A') && char_ci_eq(
        t[2],
        'n',
        'N',
    )
}

/// One of the special float spellings: `inf`, `infinity` or `nan`.
pub open spec fn is_special(t: Seq<char>) -> bool {
    is_inf(t) || is_infinity(t) || is_nan(t)
}

/// From `i` on, the text is an exponent (`e` or `E`, an optional sign,
/// one or more digits, then the end) or the end of the text.
pub open spec fn exp_or_end(s: Seq<char>, i: int) -> bool {
    if i == s.len() {
        true
    } else if s[i] == 'e' || s[i] == 'E' {
        let j = sign_end(s, i + 1);
        let k = digits_end(s, j);
        k > j && k == s.len()
    } else {
        false
    }
}

/// From `i` on, the text is a decimal number: digits with an optional
/// point and fraction, or a point with a fraction, then an optional
/// exponent.
pub open spec fn is_number_from(s: Seq<char>, i: int) -> bool {
    let p = digits_end(s, i);
    if p < s.len() && s[p] == '.' {
        let q = digits_end(s, p + 1);
        (p > i || q > p + 1) && exp_or_end(s, q)
    } else {
        p > i && exp_or_end(s, p)
    }
}

/// Whether the text is a valid floating-point literal: an optional
/// sign, then `inf`, `infinity` or `nan` in any case, or a decimal
/// number with an optional fraction and exponent.  This is the grammar
/// that the standard float parser documents.
pub open spec fn is_float_literal(s: Seq<char>) -> bool {
    let b = sign_end(s, 0);
    is_special(s.skip(b)) || is_number_from(s, b)
}

/// Whether position `j` exists and holds a digit.
fn has_digit_at(s: &str, j: usize) -> (r: bool)
    ensures
        r == (j < s@.len() && is_digit(s@[j as int])),
{
    if j < s.unicode_len() {
        let c = s.get_char(j);
        '0' <= c && c <= '9'
    } else {
        false
    }
}

/// Scans digits: returns the first position at or after `i` that does
/// not hold a digit.
fn scan_digits(s: &str, i: usize) -> (j: usize)
    requires
        i <= s@.len(),
    ensures
        j as int == digits_end(s@, i as int),
        i <= j <= s@.len(),
{
    let n = s.unicode_len();
    let mut j = i;
    while has_digit_at(s, j)
        invariant
            n == s@.len(),
            i <= j <= n,
            digits_end(s@, i as int) == digits_end(s@, j as int),
        decreases s@.len() - j,
    {
        j = j + 1;
    }
    j
}

/// Scans an optional sign at `i`.
fn scan_sign(s: &str, i: usize) -> (j: usize)
    requires
        i <= s@.len(),
    ensures
        j as int == sign_end(s@, i as int),
        i <= j <= s@.len(),
{
    if i < s.unicode_len() {
        let c = s.get_char(i);
        if c == '+' || c == '-' {
            return i + 1;
        }
    }
    i
}

/// Whether the text from `b` on is a special float spelling.
fn check_special(s: &str, b: usize) -> (r: bool)
    requires
        b <= s@.len(),
    ensures
        r == is_special(s@.skip(b as int)),
{
    let n = s.unicode_len();
    let m = n - b;
    proof {
        assert(s@.skip(b as int).len() == m);
        assert(forall|k: int|
            0 <= k < m ==> s@.skip(b as int)[k] == s@[b as int + k]);
    }
    if m == 3 {
        let c0 = s.get_char(b);
        let c1 = s.get_char(b + 1);
        let c2 = s.get_char(b + 2);
        ((c0 == 'i' || c0 == 'I') && (c1 == 'n' || c1 == 'N') && (c2 == 'f' || c2 == 'F')) || ((c0
            == 'n' || c0 == 'N') && (c1 == 'a' || c1 == 'A') && (c2 == 'n' || c2 == 'N'))
    } else if m == 8 {
        let c0 = s.get_char(b);
        let c1 = s.get_char(b + 1);
        let c2 = s.get_char(b + 2);
        let c3 = s.get_char(b + 3);
        let c4 = s.get_char(b + 4);
        let c5 = s.get_char(b + 5);
        let c6 = s.get_char(b + 6);
        let c7 = s.get_char(b + 7);
        (c0 == 'i' || c0 == 'I') && (c1 == 'n' || c1 == 'N') && (c2 == 'f' || c2 == 'F') && (c3
            == 'i' || c3 == 'I') && (c4 == 'n' || c4 == 'N') && (c5 == 'i' || c5 == 'I') && (c6
            == 't' || c6 == 'T') && (c7 == 'y' || c7 == 'Y')
    } else {
        false
    }
}

/// Whether the text from `i` on is an exponent or the end.
fn check_exp_or_end(s: &str, i: usize) -> (r: bool)
    requires
        i <= s@.len(),
    ensures
        r == exp_or_end(s@, i as int),
{
    let n = s.unicode_len();
    if i == n {
        return true;
    }
    let c = s.get_char(i);
    if c == 'e' || c == 'E' {
        let j = scan_sign(s, i + 1);
        let k = scan_digits(s, j);
        k > j && k == n
    } else {
        false
    }
}

/// Whether the text is a valid floating-point literal.
pub fn word_is_float(s: &str) -> (r: bool)
    ensures
        r == is_float_literal(s@),
{
    let n = s.unicode_len();
    let b = scan_sign(s, 0);
    if check_special(s, b) {
        return true;
    }
    let p = scan_digits(s, b);
    if p < n {
        let c = s.get_char(p);
        if c == '.' {
            let q = scan_digits(s, p + 1);
            return (p > b || q > p + 1) && check_exp_or_end(s, q);
        }
    }
    p > b && check_exp_or_end(s, p)
}

/// Parses the text as an integer literal: `Some` exactly when the text
/// is an optional sign followed by one or more digits whose value fits
/// in an `i64`, and then the denoted value.
pub fn word_as_int(s: &str) -> (r: Option<i64>)
    ensures
        (match int_literal(s@) {
            Some(v) => r matches Some(x) && x as int == v,
            None => r is None,
        }),
{
    let n = s.unicode_len();
    let b = scan_sign(s, 0);
    if b >= n {
        return None;
    }
    let neg = s.get_char(0) == '-';
    let limit: u64 = if neg {
        9223372036854775808
    } else {
        9223372036854775807
    };
    let ghost body = s@.skip(b as int);
    let mut acc: u64 = 0;
    let mut j = b;
    proof {
        lemma_digits_end(s@, b as int);
        assert(body.take(0) =~= Seq::<char>::empty());
    }
    while j < n
        invariant
            b <= j <= n,
            n == s@.len(),
            body == s@.skip(b as int),
            acc <= limit,
            acc as int == digits_val(body.take(j - b)),
            forall|k: int| b <= k < j ==> is_digit(s@[k]),
            digits_end(s@, b as int) == digits_end(s@, j as int),
            limit == (if neg {
                9223372036854775808u64
            } else {
                9223372036854775807u64
            }),
            neg == (s@[0] == '-'),
            b as int == sign_end(s@, 0),
        decreases n - j,
    {
        let c = s.get_char(j);
        if !('0' <= c && c <= '9') {
            proof {
                lemma_digits_end(s@, j as int);
            }
            return None;
        }
        let d: u64 = (c as u32 - '0' as u32) as u64;
        proof {
            assert(body[j - b] == s@[j as int]);
            assert(body.take(j - b + 1).drop_last() =~= body.take(j - b));
            assert(digits_val(body.take(j - b + 1)) == acc * 10 + d);
        }
        if acc > (limit - d) / 10 {
            // The value already exceeds the range of `i64`; more digits
            // can only raise it further.
            proof {
                assert(acc * 10 + d > limit) by (nonlinear_arith)
                    requires
                        acc > (limit - d) / 10,
                        d <= 9,
                        limit >= d,
                {}
                lemma_digits_end(s@, j as int);
                let whole = digits_end(s@, b as int);
                if whole == n {
                    assert(body.take(n - b) =~= body);
                    lemma_digits_val_mono(body, j - b + 1);
                    assert(digits_val(body) > limit);
                    assert(int_literal(s@) is None);
                }
            }
            return None;
        }
        proof {
            assert(acc * 10 + d <= limit) by (nonlinear_arith)
                requires
                    acc <= (limit - d) / 10,
                    d <= 9,
                    limit >= d,
            {}
        }
        acc = acc * 10 + d;
        j = j + 1;
    }
    proof {
        assert(body.take(n - b) =~= body);
        assert(digits_end(s@, b as int) == n);
        assert(acc as int == digits_val(body));
    }
    if neg {
        if acc == 9223372036854775808 {
            Some(i64::MIN)
        } else {
            Some(-(acc as i64))
        }
    } else {
        Some(acc as i64)
    }
}

/// The value that a word token denotes: the classifications are tried
/// in order — integer literal, float literal, the boolean literals `#t`
/// and `#f`, the quotation markers `{` and `}`, a name registered in
/// the builtin table, and finally an unresolved word.
pub open spec fn classify_word<R: Registry>(w: Seq<char>, reg: &R) -> AbsValue {
    if int_literal(w) is Some {
        AbsValue::Int(int_literal(w)->Some_0)
    } else if is_float_literal(w) {
        AbsValue::Float(w)
    } else if w == seq!['#', 't'] {
        AbsValue::Boolean(true)
    } else if w == seq!['#', 'f'] {
        AbsValue::Boolean(false)
    } else if w == seq!['{'] {
        AbsValue::QuoteOpen
    } else if w == seq!['}'] {
        AbsValue::QuoteClose
    } else if reg.spec_has(w) {
        AbsValue::Builtin(w)
    } else {
        AbsValue::Word(w)
    }
}

/// Whether the text is exactly the one character `a`.
fn str_is_char(s: &str, a: char) -> (r: bool)
    ensures
        r == (s@ == seq![a]),
{
    if s.unicode_len() == 1 {
        let c = s.get_char(0);
        proof {
            assert(s@ =~= seq![s@[0]]);
        }
        c == a
    } else {
        false
    }
}

/// Whether the text is exactly the two characters `a`, `b`.
fn str_is_char2(s: &str, a: char, b: char) -> (r: bool)
    ensures
        r == (s@ == seq![a, b]),
{
    if s.unicode_len() == 2 {
        let c0 = s.get_char(0);
        let c1 = s.get_char(1);
        proof {
            assert(s@ =~= seq![s@[0], s@[1]]);
        }
        c0 == a && c1 == b
    } else {
        false
    }
}

/// Classifies one word token, as [`classify_word`] says.
fn classify<R: Registry>(w: &String, reg: &R) -> (v: Value)
    ensures
        v@ == classify_word(w@, reg),
{
    match word_as_int(w.as_str()) {
        Some(i) => Value::Int(i),
        None => {
            if word_is_float(w.as_str()) {
                Value::Float(w.clone())
            } else if str_is_char2(w.as_str(), '#', 't') {
                Value::Boolean(true)
            } else if str_is_char2(w.as_str(), '#', 'f') {
                Value::Boolean(false)
            } else if str_is_char(w.as_str(), '{') {
                Value::QuoteOpen
            } else if str_is_char(w.as_str(), '}') {
                Value::QuoteClose
            } else if reg.contains(w.as_str()) {
                Value::Builtin(Builtin { name: w.clone() })
            } else {
                Value::Word(w.clone())
            }
        },
    }
}

/// The model of the parse-local symbol table: the map from each
/// interned symbol text to its id.
pub open spec fn table_view(syms: Seq<Symbol>) -> Map<Seq<char>, nat>
    decreases syms,
{
    if syms.len() == 0 {
        Map::empty()
    } else {
        table_view(syms.drop_last()).insert(syms.last().name@, syms.last().id as nat)
    }
}

/// All symbol names of the table are distinct.
pub open spec fn distinct_names(syms: Seq<Symbol>) -> bool {
    forall|a: int, b: int|
        0 <= a < b < syms.len() ==> (#[trigger] syms[a].name)@ != (#[trigger] syms[b].name)@
}

/// A table with distinct names maps the name at `j` to the id at `j`.
proof fn lemma_table_view_found(syms: Seq<Symbol>, j: int)
    requires
        distinct_names(syms),
        0 <= j < syms.len(),
    ensures
        table_view(syms).contains_key(syms[j].name@),
        table_view(syms)[syms[j].name@] == syms[j].id as nat,
    decreases syms,
{
    if j < syms.len() - 1 {
        assert(syms.drop_last()[j] == syms[j]);
        lemma_table_view_found(syms.drop_last(), j);
        assert(syms[syms.len() - 1].name@ != syms[j].name@);
    }
}

/// A name held by no entry of the table is not in its map.
proof fn lemma_table_view_absent(syms: Seq<Symbol>, s: Seq<char>)
    requires
        forall|j: int| 0 <= j < syms.len() ==> (#[trigger] syms[j].name)@ != s,
    ensures
        !table_view(syms).contains_key(s),
    decreases syms,
{
    if syms.len() > 0 {
        lemma_table_view_absent(syms.drop_last(), s);
    }
}

/// The values that the remaining tokens denote, given the symbol table
/// `tbl` and the next fresh symbol id `next`.  A symbol token reuses
/// the interned id for its text, or mints the next id; a string token
/// becomes a text value verbatim; a word token is classified by
/// [`classify_word`].
pub open spec fn parse_from<R: Registry>(
    toks: Seq<AbsToken>,
    tbl: Map<Seq<char>, nat>,
    next: nat,
    reg: &R,
) -> Seq<AbsValue>
    decreases toks.len(),
{
    if toks.len() == 0 {
        Seq::empty()
    } else {
        match toks[0] {
            AbsToken::Symbol(s) => {
                if tbl.contains_key(s) {
                    seq![AbsValue::Symbol { id: tbl[s], name: s }] + parse_from(
                        toks.drop_first(),
                        tbl,
                        next,
                        reg,
                    )
                } else {
                    seq![AbsValue::Symbol { id: next, name: s }] + parse_from(
                        toks.drop_first(),
                        tbl.insert(s, next),
                        next + 1,
                        reg,
                    )
                }
            },
            AbsToken::Text(s) => seq![AbsValue::Text(s)] + parse_from(
                toks.drop_first(),
                tbl,
                next,
                reg,
            ),
            AbsToken::Word(w) => seq![classify_word(w, reg)] + parse_from(
                toks.drop_first(),
                tbl,
                next,
                reg,
            ),
        }
    }
}

/// The values that a whole token sequence denotes.
pub open spec fn parse_tokens<R: Registry>(toks: Seq<AbsToken>, reg: &R) -> Seq<AbsValue> {
    parse_from(toks, Map::empty(), 0, reg)
}

/// Resolves tokens into runtime values, as [`parse_tokens`] says.
/// Parsing does not fail: a word that no classification matches falls
/// through to an unresolved word value.
pub fn parse<R: Registry>(tokens: &Vec<Token>, builtins: &R) -> (r: Result<Vec<Value>, Error>)
    ensures
        r matches Ok(vals) && vals.deep_view() == parse_tokens(tokens.deep_view(), builtins),
{
    let ghost toks_dv = tokens.deep_view();
    let mut ret: Vec<Value> = Vec::new();
    let mut syms: Vec<Symbol> = Vec::new();
    let mut symbols_ct: u64 = 0;
    let mut i: usize = 0;

    proof {
        assert(toks_dv.skip(0) =~= toks_dv);
        assert(ret.deep_view() =~= Seq::<AbsValue>::empty());
        assert(ret.deep_view() + parse_tokens(toks_dv, builtins) =~= parse_tokens(
            toks_dv,
            builtins,
        ));
    }

    while i < tokens.len()
        invariant
            i <= tokens@.len(),
            toks_dv == tokens.deep_view(),
            symbols_ct == syms@.len(),
            symbols_ct <= i,
            distinct_names(syms@),
            forall|j: int| 0 <= j < syms@.len() ==> (#[trigger] syms@[j].id) == j,
            ret.deep_view() + parse_from(
                toks_dv.skip(i as int),
                table_view(syms@),
                symbols_ct as nat,
                builtins,
            ) == parse_tokens(toks_dv, builtins),
        decreases tokens@.len() - i,
    {
        let ghost prev = ret.deep_view();
        let ghost rest = parse_from(
            toks_dv.skip(i as int),
            table_view(syms@),
            symbols_ct as nat,
            builtins,
        );
        proof {
            assert(toks_dv.skip(i as int)[0] == toks_dv[i as int]);
            assert(toks_dv.skip(i as int).drop_first() =~= toks_dv.skip(i as int + 1));
            assert(toks_dv[i as int] == tokens@[i as int]@);
        }
        match &tokens[i] {
            Token::Symbol(s) => {
                let mut found: Option<Symbol> = None;
                let mut j: usize = 0;
                while j < syms.len() && found.is_none()
                    invariant
                        j <= syms@.len(),
                        distinct_names(syms@),
                        (match found {
                            Some(sym) => table_view(syms@).contains_key(s@) && sym.id as nat
                                == table_view(syms@)[s@] && sym.name@ == s@,
                            None => forall|k: int|
                                0 <= k < j ==> (#[trigger] syms@[k].name)@ != s@,
                        }),
                    decreases syms@.len() - j,
                {
                    if syms[j].name == *s {
                        proof {
                            lemma_table_view_found(syms@, j as int);
                        }
                        found = Some(syms[j].clone());
                    }
                    j = j + 1;
                }
                match found {
                    Some(sym) => {
                        ret.push(Value::Symbol(sym));
                    },
                    None => {
                        proof {
                            lemma_table_view_absent(syms@, s@);
                        }
                        let ghost syms_prev = syms@;
                        let sym = Symbol { id: symbols_ct, name: s.clone() };
                        syms.push(sym.clone());
                        ret.push(Value::Symbol(sym));
                        proof {
                            assert(syms@.drop_last() =~= syms_prev);
                            assert(table_view(syms@) == table_view(syms_prev).insert(
                                s@,
                                symbols_ct as nat,
                            ));
                        }
                        symbols_ct = symbols_ct + 1;
                    },
                }
            },
            Token::Text(s) => {
                ret.push(Value::Text(s.clone()));
            },
            Token::Word(s) => {
                let v = classify(s, builtins);
                ret.push(v);
            },
        }
        proof {
            assert(ret.deep_view() =~= prev.push(ret@.last()@));
            assert forall|t: AbsValue, more: Seq<AbsValue>|
                prev + (seq![t] + more) =~= prev.push(t) + more by {}
        }
        i = i + 1;
    }
    proof {
        assert(toks_dv.skip(i as int) =~= Seq::<AbsToken>::empty());
        assert(ret.deep_view() + Seq::<AbsValue>::empty() =~= ret.deep_view());
    }
    Ok(ret)
}

} // verus!
