//! The tokenizer: a character-level state machine turning raw source
//! text into lexical tokens, or failing with a positioned lexical error.
//!
//! Whitespace and `;` delimit tokens, and `;` opens a comment that runs
//! to the end of the line.  A leading `:` opens a symbol, a leading `"`
//! opens a string (no escapes, no embedded newline), and any other
//! leading character opens a word.  `{` and `}` are valid words only
//! when they stand alone, delimited.

use vstd::prelude::*;

verus! {

/// A lexical error.  Each is reported together with the 1-based line
/// number of the character at which it was encountered.
#[derive(Debug, PartialEq, Eq, Structural)]
pub enum Error {
    UnfinishedString,
    InvalidSymbol,
    InvalidWord,
}

/// A lexical token.  Symbol text is stored without its leading `:`, and
/// string text without its surrounding quotes.
#[derive(Debug)]
pub enum Token {
    Symbol(String),
    Text(String),
    Word(String),
}

/// The mathematical model of a [`Token`].
pub enum AbsToken {
    Symbol(Seq<char>),
    Text(Seq<char>),
    Word(Seq<char>),
}

impl View for Token {
    type V = AbsToken;

    open spec fn view(&self) -> AbsToken {
        match self {
            Token::Symbol(s) => AbsToken::Symbol(s@),
            Token::Text(s) => AbsToken::Text(s@),
            Token::Word(s) => AbsToken::Word(s@),
        }
    }
}

impl DeepView for Token {
    type V = AbsToken;

    open spec fn deep_view(&self) -> AbsToken {
        self.view()
    }
}

/// The Unicode white-space characters, exactly the set that
/// `char::is_whitespace` accepts.
pub open spec fn spec_char_is_whitespace(ch: char) -> bool {
    ||| ch == ' '
    ||| ch == '\t'
    ||| ch == '\n'
    ||| ch == '\u{0B}'
    ||| ch == '\u{0C}'
    ||| ch == '\r'
    ||| ch == '\u{85}'
    ||| ch == '\u{A0}'
    ||| ch == '\u{1680}'
    ||| ('\u{2000}' <= ch && ch <= '\u{200A}')
    ||| ch == '\u{2028}'
    ||| ch == '\u{2029}'
    ||| ch == '\u{202F}'
    ||| ch == '\u{205F}'
    ||| ch == '\u{3000}'
}

#[verifier::when_used_as_spec(spec_char_is_whitespace)]
fn char_is_whitespace(ch: char) -> (r: bool)
    ensures
        r == spec_char_is_whitespace(ch),
{
    ch == ' ' || ch == '\t' || ch == '\n' || ch == '\u{0B}' || ch == '\u{0C}' || ch == '\r'
        || ch == '\u{85}' || ch == '\u{A0}' || ch == '\u{1680}' || ('\u{2000}' <= ch && ch
        <= '\u{200A}') || ch == '\u{2028}' || ch == '\u{2029}' || ch == '\u{202F}' || ch
        == '\u{205F}' || ch == '\u{3000}'
}

/// Whether `ch` ends the token before it: white space or `;`.
pub open spec fn spec_char_is_delimiter(ch: char) -> bool {
    spec_char_is_whitespace(ch) || ch == ';'
}

/// Whether `ch` ends the token before it: white space or `;`.
#[verifier::when_used_as_spec(spec_char_is_delimiter)]
pub fn char_is_delimiter(ch: char) -> (r: bool)
    ensures
        r == spec_char_is_delimiter(ch),
{
    char_is_whitespace(ch) || ch == ';'
}

/// Whether `ch` may stand inside a word body.
pub open spec fn spec_char_is_word_valid(ch: char) -> bool {
    ch != '"' && ch != ':' && ch != '{' && ch != '}'
}

/// Whether `ch` may stand inside a word body.
#[verifier::when_used_as_spec(spec_char_is_word_valid)]
pub fn char_is_word_valid(ch: char) -> (r: bool)
    ensures
        r == spec_char_is_word_valid(ch),
{
    ch != '"' && ch != ':' && ch != '{' && ch != '}'
}

/// Whether `ch` may stand inside a symbol body.
pub open spec fn spec_char_is_symbol_valid(ch: char) -> bool {
    ch != '"' && ch != ':'
}

/// Whether `ch` may stand inside a symbol body.
#[verifier::when_used_as_spec(spec_char_is_symbol_valid)]
pub fn char_is_symbol_valid(ch: char) -> (r: bool)
    ensures
        r == spec_char_is_symbol_valid(ch),
{
    ch != '"' && ch != ':'
}

/// The tokenizer's state: outside any token, inside a word body, inside
/// a symbol body, inside a comment, or inside a string.  The in-token
/// states carry the text accumulated so far.
pub enum LexState {
    Outside,
    InWord(Seq<char>),
    InSymbol(Seq<char>),
    InComment,
    InString(Seq<char>),
}

/// What one character does to the tokenizer: move to a state, move to a
/// state and emit a finished token, or fail.
pub enum LexStep {
    Advance(LexState),
    Emit(LexState, AbsToken),
    Fail(Error),
}

/// The transition of the tokenizer on one character.
pub open spec fn lex_step(st: LexState, c: char) -> LexStep {
    match st {
        LexState::Outside => {
            if spec_char_is_whitespace(c) {
                LexStep::Advance(LexState::Outside)
            } else if c == ':' {
                LexStep::Advance(LexState::InSymbol(Seq::empty()))
            } else if c == ';' {
                LexStep::Advance(LexState::InComment)
            } else if c == '"' {
                LexStep::Advance(LexState::InString(Seq::empty()))
            } else {
                LexStep::Advance(LexState::InWord(seq![c]))
            }
        },
        LexState::InWord(acc) => {
            if spec_char_is_delimiter(c) {
                LexStep::Emit(
                    if c == ';' {
                        LexState::InComment
                    } else {
                        LexState::Outside
                    },
                    AbsToken::Word(acc),
                )
            } else if !spec_char_is_word_valid(c) {
                LexStep::Fail(Error::InvalidWord)
            } else if acc == seq!['{'] || acc == seq!['}'] {
                // A brace is a word only when it stands alone.
                LexStep::Fail(Error::InvalidWord)
            } else {
                LexStep::Advance(LexState::InWord(acc.push(c)))
            }
        },
        LexState::InSymbol(acc) => {
            if spec_char_is_delimiter(c) {
                if acc.len() == 0 {
                    LexStep::Fail(Error::InvalidSymbol)
                } else {
                    LexStep::Emit(
                        if c == ';' {
                            LexState::InComment
                        } else {
                            LexState::Outside
                        },
                        AbsToken::Symbol(acc),
                    )
                }
            } else if !spec_char_is_symbol_valid(c) {
                LexStep::Fail(Error::InvalidSymbol)
            } else {
                LexStep::Advance(LexState::InSymbol(acc.push(c)))
            }
        },
        LexState::InComment => {
            if c == '\n' {
                LexStep::Advance(LexState::Outside)
            } else {
                LexStep::Advance(LexState::InComment)
            }
        },
        LexState::InString(acc) => {
            if c == '"' {
                LexStep::Emit(LexState::Outside, AbsToken::Text(acc))
            } else if c == '\n' {
                LexStep::Fail(Error::UnfinishedString)
            } else {
                LexStep::Advance(LexState::InString(acc.push(c)))
            }
        },
    }
}

/// What the tokenizer yields when the input ends in state `st`: a
/// pending word or symbol is flushed, an open string or an empty symbol
/// body is an error at the final line.
pub open spec fn lex_finish(st: LexState, line: nat) -> Result<Seq<AbsToken>, (nat, Error)> {
    match st {
        LexState::Outside => Ok(seq![]),
        LexState::InComment => Ok(seq![]),
        LexState::InWord(acc) => Ok(seq![AbsToken::Word(acc)]),
        LexState::InSymbol(acc) => {
            if acc.len() == 0 {
                Err((line, Error::InvalidSymbol))
            } else {
                Ok(seq![AbsToken::Symbol(acc)])
            }
        },
        LexState::InString(acc) => Err((line, Error::UnfinishedString)),
    }
}

/// The tokens of the remaining input `s`, entered in state `st` on line
/// `line`.  An error carries the 1-based line of the character at which
/// it was encountered.
pub open spec fn lex_from(s: Seq<char>, st: LexState, line: nat) -> Result<
    Seq<AbsToken>,
    (nat, Error),
>
    decreases s.len(),
{
    if s.len() == 0 {
        lex_finish(st, line)
    } else {
        let c = s[0];
        let next_line: nat = if c == '\n' {
            line + 1
        } else {
            line
        };
        match lex_step(st, c) {
            LexStep::Advance(st2) => lex_from(s.drop_first(), st2, next_line),
            LexStep::Emit(st2, t) => match lex_from(s.drop_first(), st2, next_line) {
                Ok(rest) => Ok(seq![t] + rest),
                Err(e) => Err(e),
            },
            LexStep::Fail(k) => Err((line, k)),
        }
    }
}

/// The tokens of a whole source text, or its first lexical error.
pub open spec fn lex(s: Seq<char>) -> Result<Seq<AbsToken>, (nat, Error)> {
    lex_from(s, LexState::Outside, 1)
}

/// Relies on `FromIterator<char> for String`: collecting characters
/// yields the string of exactly those characters, in order.
#[verifier::external_body]
fn string_from_chars(chars: &Vec<char>) -> (s: String)
    ensures
        s@ == chars@,
{
    chars.iter().collect()
}

/// The exec tokenizer state, with the accumulated token text held
/// separately in a character buffer.
enum State {
    Outside,
    InWord,
    InSymbol,
    InComment,
    InString,
}

/// The model of the exec state `st` with accumulated text `acc`.
spec fn state_view(st: State, acc: Seq<char>) -> LexState {
    match st {
        State::Outside => LexState::Outside,
        State::InWord => LexState::InWord(acc),
        State::InSymbol => LexState::InSymbol(acc),
        State::InComment => LexState::InComment,
        State::InString => LexState::InString(acc),
    }
}

/// Turns source text into tokens, or fails with the first lexical error
/// and its 1-based line number.  The result is exactly what the
/// specification tokenizer [`lex`] yields on the text.
pub fn tokenize(input: &str) -> (r: Result<Vec<Token>, (usize, Error)>)
    requires
        input@.len() < usize::MAX,
    ensures
        (match r {
            Ok(toks) => lex(input@) == Ok::<Seq<AbsToken>, (nat, Error)>(toks.deep_view()),
            Err((line, e)) => lex(input@) == Err::<Seq<AbsToken>, (nat, Error)>((line as nat, e)),
        }),
{
    let n = input.unicode_len();
    let mut state = State::Outside;
    let mut acc: Vec<char> = Vec::new();
    let mut toks: Vec<Token> = Vec::new();
    let mut line: usize = 1;
    let mut i: usize = 0;

    proof {
        assert(input@.skip(0) =~= input@);
        assert(toks.deep_view() =~= Seq::<AbsToken>::empty());
        match lex_from(input@, LexState::Outside, 1) {
            Ok(rest) => {
                assert(toks.deep_view() + rest =~= rest);
            },
            Err(e) => {},
        }
    }

    while i < n
        invariant
            n == input@.len(),
            n < usize::MAX,
            i <= n,
            1 <= line <= 1 + i,
            (match lex_from(input@.skip(i as int), state_view(state, acc@), line as nat) {
                Ok(rest) => lex(input@) == Ok::<Seq<AbsToken>, (nat, Error)>(
                    toks.deep_view() + rest,
                ),
                Err(e) => lex(input@) == Err::<Seq<AbsToken>, (nat, Error)>(e),
            }),
        decreases n - i,
    {
        let ch = input.get_char(i);
        proof {
            assert(input@.skip(i as int)[0] == input@[i as int]);
            assert(input@.skip(i as int).drop_first() =~= input@.skip(i as int + 1));
        }
        let ghost prev_toks = toks.deep_view();

        match state {
            State::Outside => {
                if char_is_whitespace(ch) {
                    // stay outside any token
                } else if ch == ':' {
                    state = State::InSymbol;
                    acc = Vec::new();
                } else if ch == ';' {
                    state = State::InComment;
                } else if ch == '"' {
                    state = State::InString;
                    acc = Vec::new();
                } else {
                    state = State::InWord;
                    acc = Vec::new();
                    acc.push(ch);
                    proof {
                        assert(acc@ =~= seq![ch]);
                    }
                }
            },
            State::InWord => {
                if char_is_delimiter(ch) {
                    let text = string_from_chars(&acc);
                    toks.push(Token::Word(text));
                    state = if ch == ';' {
                        State::InComment
                    } else {
                        State::Outside
                    };
                } else if !char_is_word_valid(ch) {
                    return Err((line, Error::InvalidWord));
                } else if acc.len() == 1 && (acc[0] == '{' || acc[0] == '}') {
                    proof {
                        assert(acc@ =~= seq![acc@[0]]);
                    }
                    return Err((line, Error::InvalidWord));
                } else {
                    proof {
                        assert(acc@ != seq!['{'] && acc@ != seq!['}']) by {
                            if acc@.len() == 1 {
                                assert(acc@ =~= seq![acc@[0]]);
                            }
                        }
                    }
                    acc.push(ch);
                }
            },
            State::InSymbol => {
                if char_is_delimiter(ch) {
                    if acc.len() == 0 {
                        return Err((line, Error::InvalidSymbol));
                    }
                    let text = string_from_chars(&acc);
                    toks.push(Token::Symbol(text));
                    state = if ch == ';' {
                        State::InComment
                    } else {
                        State::Outside
                    };
                } else if !char_is_symbol_valid(ch) {
                    return Err((line, Error::InvalidSymbol));
                } else {
                    acc.push(ch);
                }
            },
            State::InComment => {
                if ch == '\n' {
                    state = State::Outside;
                }
            },
            State::InString => {
                if ch == '"' {
                    let text = string_from_chars(&acc);
                    toks.push(Token::Text(text));
                    state = State::Outside;
                } else if ch == '\n' {
                    return Err((line, Error::UnfinishedString));
                } else {
                    acc.push(ch);
                }
            },
        }

        proof {
            if toks.deep_view() != prev_toks {
                assert(toks.deep_view() =~= prev_toks.push(toks@.last()@));
            }
            assert forall|t: AbsToken, rest: Seq<AbsToken>|
                prev_toks + (seq![t] + rest) =~= prev_toks.push(t) + rest by {}
        }

        if ch == '\n' {
            line = line + 1;
        }
        i = i + 1;
    }

    proof {
        assert(input@.skip(n as int) =~= Seq::<char>::empty());
    }
    let ghost prev = toks.deep_view();
    match state {
        State::Outside => {
            proof {
                assert(prev + Seq::<AbsToken>::empty() =~= prev);
            }
            Ok(toks)
        },
        State::InComment => {
            proof {
                assert(prev + Seq::<AbsToken>::empty() =~= prev);
            }
            Ok(toks)
        },
        State::InWord => {
            let text = string_from_chars(&acc);
            toks.push(Token::Word(text));
            proof {
                assert(toks.deep_view() =~= prev + seq![AbsToken::Word(acc@)]);
            }
            Ok(toks)
        },
        State::InSymbol => {
            if acc.len() == 0 {
                Err((line, Error::InvalidSymbol))
            } else {
                let text = string_from_chars(&acc);
                toks.push(Token::Symbol(text));
                proof {
                    assert(toks.deep_view() =~= prev + seq![AbsToken::Symbol(acc@)]);
                }
                Ok(toks)
            }
        },
        State::InString => Err((line, Error::UnfinishedString)),
    }
}

} // verus!
