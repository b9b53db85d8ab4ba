use orth::builtins::CoreBuiltins;
use orth::context::Context;
use orth::context::Env;
use orth::context::Stack;
use orth::eval::eval;
use orth::eval::EvalFault;
use orth::parse::parse;
use orth::token::tokenize;
use orth::token::Error;
use orth::token::Token;
use orth::value::Value;

const DEPTH: u64 = 64;

fn run(src: &str) -> Context {
    let reg = CoreBuiltins::new();
    let toks = tokenize(src).expect("tokenize");
    let vals = parse(&toks, &reg).expect("parse");
    let mut ctx = Context::new();
    let faults = eval(&vals, &mut ctx, &reg, DEPTH);
    assert!(faults.is_empty(), "unexpected faults: {:?}", faults);
    ctx
}

#[test]
fn symbol_then_word_tokens() {
    let toks = tokenize(":foo bar").expect("tokenize");
    assert_eq!(toks.len(), 2);
    assert!(matches!(&toks[0], Token::Symbol(s) if s == "foo"));
    assert!(matches!(&toks[1], Token::Word(s) if s == "bar"));
}

#[test]
fn unfinished_string_fails_at_line_one() {
    let err = tokenize("\"abc\n").expect_err("should fail");
    assert_eq!(err.0, 1);
    assert!(matches!(err.1, Error::UnfinishedString));
}

#[test]
fn empty_symbol_fails_at_line_one() {
    let err = tokenize(":\n").expect_err("should fail");
    assert_eq!(err.0, 1);
    assert!(matches!(err.1, Error::InvalidSymbol));
}

#[test]
fn empty_symbol_line_number_counts_earlier_newlines() {
    let err = tokenize("a b\nc\n:\n").expect_err("should fail");
    assert_eq!(err.0, 3);
    assert!(matches!(err.1, Error::InvalidSymbol));
}

#[test]
fn invalid_word_character() {
    let err = tokenize("ab:cd").expect_err("should fail");
    assert!(matches!(err.1, Error::InvalidWord));
}

#[test]
fn brace_must_stand_alone() {
    let err = tokenize("{a b }").expect_err("should fail");
    assert!(matches!(err.1, Error::InvalidWord));
}

#[test]
fn string_token_strips_quotes() {
    let toks = tokenize("\"hi there\" x").expect("tokenize");
    assert_eq!(toks.len(), 2);
    assert!(matches!(&toks[0], Token::Text(s) if s == "hi there"));
}

#[test]
fn comment_runs_to_end_of_line() {
    let toks = tokenize("1 ; all of this is skipped :x \"\n2").expect("tokenize");
    assert_eq!(toks.len(), 2);
    assert!(matches!(&toks[0], Token::Word(s) if s == "1"));
    assert!(matches!(&toks[1], Token::Word(s) if s == "2"));
}

#[test]
fn semicolon_delimits_and_opens_comment() {
    let toks = tokenize("x;y z\nw").expect("tokenize");
    assert_eq!(toks.len(), 2);
    assert!(matches!(&toks[0], Token::Word(s) if s == "x"));
    assert!(matches!(&toks[1], Token::Word(s) if s == "w"));
}

#[test]
fn trailing_word_is_flushed() {
    let toks = tokenize("alpha").expect("tokenize");
    assert_eq!(toks.len(), 1);
    assert!(matches!(&toks[0], Token::Word(s) if s == "alpha"));
}

#[test]
fn symbol_interning_same_id() {
    let reg = CoreBuiltins::new();
    let toks = tokenize(":x :x :y :x").expect("tokenize");
    let vals = parse(&toks, &reg).expect("parse");
    assert_eq!(vals.len(), 4);
    let (id0, name0) = match &vals[0] {
        Value::Symbol(s) => (s.id, s.name.clone()),
        v => panic!("not a symbol: {:?}", v),
    };
    let (id1, name1) = match &vals[1] {
        Value::Symbol(s) => (s.id, s.name.clone()),
        v => panic!("not a symbol: {:?}", v),
    };
    let id2 = match &vals[2] {
        Value::Symbol(s) => s.id,
        v => panic!("not a symbol: {:?}", v),
    };
    let id3 = match &vals[3] {
        Value::Symbol(s) => s.id,
        v => panic!("not a symbol: {:?}", v),
    };
    assert_eq!(id0, id1);
    assert_eq!(id0, id3);
    assert_ne!(id0, id2);
    assert_eq!(name0, "x");
    assert_eq!(name1, "x");
    assert_eq!(id0, 0);
    assert_eq!(id2, 1);
}

fn parse_one_word(w: &str) -> Value {
    let reg = CoreBuiltins::new();
    let toks = tokenize(w).expect("tokenize");
    let mut vals = parse(&toks, &reg).expect("parse");
    assert_eq!(vals.len(), 1);
    vals.remove(0)
}

#[test]
fn literal_classification() {
    assert!(matches!(parse_one_word("42"), Value::Int(42)));
    assert!(matches!(parse_one_word("-7"), Value::Int(-7)));
    assert!(matches!(parse_one_word("+5"), Value::Int(5)));
    assert!(matches!(parse_one_word("007"), Value::Int(7)));
    assert!(matches!(parse_one_word("3.14"), Value::Float(s) if s == "3.14"));
    assert!(matches!(parse_one_word("#t"), Value::Boolean(true)));
    assert!(matches!(parse_one_word("#f"), Value::Boolean(false)));
    assert!(matches!(parse_one_word("{"), Value::QuoteOpen));
    assert!(matches!(parse_one_word("}"), Value::QuoteClose));
    assert!(matches!(parse_one_word("swap"), Value::Builtin(b) if b.name == "swap"));
    assert!(matches!(parse_one_word("frobnicate"), Value::Word(w) if w == "frobnicate"));
}

#[test]
fn int_range_boundaries() {
    assert!(matches!(parse_one_word("9223372036854775807"), Value::Int(i64::MAX)));
    assert!(matches!(parse_one_word("-9223372036854775808"), Value::Int(i64::MIN)));
    // one past the range falls through to a float literal
    assert!(matches!(parse_one_word("9223372036854775808"), Value::Float(s) if s == "9223372036854775808"));
}

#[test]
fn float_literal_text_denotes_the_number() {
    match parse_one_word("3.14") {
        Value::Float(s) => {
            let x: f64 = s.parse().expect("float text parses");
            assert_eq!(x, 3.14f64);
        },
        v => panic!("not a float: {:?}", v),
    }
}

#[test]
fn float_literal_spellings() {
    assert!(matches!(parse_one_word("1e3"), Value::Float(s) if s == "1e3"));
    assert!(matches!(parse_one_word("-.5"), Value::Float(s) if s == "-.5"));
    assert!(matches!(parse_one_word("1."), Value::Float(s) if s == "1."));
    assert!(matches!(parse_one_word("inf"), Value::Float(s) if s == "inf"));
    assert!(matches!(parse_one_word("NaN"), Value::Float(s) if s == "NaN"));
    assert!(matches!(parse_one_word("Infinity"), Value::Float(s) if s == "Infinity"));
    // not float literals: fall through to words
    assert!(matches!(parse_one_word("."), Value::Word(w) if w == "."));
    assert!(matches!(parse_one_word("1e"), Value::Word(w) if w == "1e"));
    assert!(matches!(parse_one_word("--1"), Value::Word(w) if w == "--1"));
    assert!(matches!(parse_one_word("infx"), Value::Word(w) if w == "infx"));
}

#[test]
fn quotation_capture_balanced() {
    let mut ctx = run("{ 1 { 2 } 3 }");
    let top = ctx.stack.pop().expect("one value");
    assert!(ctx.stack.pop().is_none());
    let inner = match top {
        Value::Quotation(vs) => vs,
        v => panic!("not a quotation: {:?}", v),
    };
    assert_eq!(inner.len(), 5);
    assert!(matches!(inner[0], Value::Int(1)));
    assert!(matches!(inner[1], Value::QuoteOpen));
    assert!(matches!(inner[2], Value::Int(2)));
    assert!(matches!(inner[3], Value::QuoteClose));
    assert!(matches!(inner[4], Value::Int(3)));
}

#[test]
fn bind_then_lookup() {
    let mut ctx = run("5 :x @ x");
    let top = ctx.stack.pop().expect("one value");
    assert!(matches!(top, Value::Int(5)));
    assert!(ctx.stack.pop().is_none());
    assert!(matches!(ctx.env.get("x"), Some(Value::Int(5))));
}

#[test]
fn quotation_runs_in_same_context() {
    let mut ctx = run("{ 1 :y @ } :q @ q y");
    // the quotation bound 1 to y in the ambient context, and the later
    // reference to y observes the binding
    let top = ctx.stack.pop().expect("one value");
    assert!(matches!(top, Value::Int(1)));
    assert!(ctx.stack.pop().is_none());
    assert!(matches!(ctx.env.get("y"), Some(Value::Int(1))));
}

#[test]
fn reparse_same_source_is_structurally_equal() {
    let reg = CoreBuiltins::new();
    let src = ":a 42 \"s\" :a frob swap 3.5";
    let v1 = parse(&tokenize(src).unwrap(), &reg).unwrap();
    let v2 = parse(&tokenize(src).unwrap(), &reg).unwrap();
    assert_eq!(v1.len(), v2.len());
    for (a, b) in v1.iter().zip(v2.iter()) {
        match (a, b) {
            (Value::Symbol(x), Value::Symbol(y)) => {
                assert_eq!(x.id, y.id);
                assert_eq!(x.name, y.name);
            },
            (Value::Int(x), Value::Int(y)) => assert_eq!(x, y),
            (Value::Float(x), Value::Float(y)) => assert_eq!(x, y),
            (Value::Text(x), Value::Text(y)) => assert_eq!(x, y),
            (Value::Builtin(x), Value::Builtin(y)) => assert_eq!(x.name, y.name),
            (Value::Word(x), Value::Word(y)) => assert_eq!(x, y),
            (x, y) => panic!("variant mismatch: {:?} vs {:?}", x, y),
        }
    }
}

#[test]
fn unresolved_word_reports_and_continues() {
    let reg = CoreBuiltins::new();
    let toks = tokenize("zzz 7").expect("tokenize");
    let vals = parse(&toks, &reg).expect("parse");
    let mut ctx = Context::new();
    let faults = eval(&vals, &mut ctx, &reg, DEPTH);
    assert_eq!(faults.len(), 1);
    assert!(matches!(&faults[0], EvalFault::WordNotFound(w) if w == "zzz"));
    // evaluation continued past the fault
    assert!(matches!(ctx.stack.pop(), Some(Value::Int(7))));
}

#[test]
fn runaway_recursion_reports_depth_fault() {
    let reg = CoreBuiltins::new();
    let toks = tokenize("{ r } :r @ r").expect("tokenize");
    let vals = parse(&toks, &reg).expect("parse");
    let mut ctx = Context::new();
    let faults = eval(&vals, &mut ctx, &reg, 4);
    assert!(faults.iter().any(|f| matches!(f, EvalFault::DepthExceeded)));
}

#[test]
fn swap_exchanges_top_two() {
    let mut ctx = run("1 2 swap");
    assert!(matches!(ctx.stack.pop(), Some(Value::Int(1))));
    assert!(matches!(ctx.stack.pop(), Some(Value::Int(2))));
    assert!(ctx.stack.pop().is_none());
}

#[test]
fn vector_builtins() {
    let mut ctx = run("make-vec 10 vpush! 20 vpush! 1 vget");
    assert!(matches!(ctx.stack.pop(), Some(Value::Int(20))));
    assert!(ctx.stack.pop().is_none());
}

#[test]
fn stray_close_marker_is_ignored() {
    let mut ctx = run("} 1");
    assert!(matches!(ctx.stack.pop(), Some(Value::Int(1))));
    assert!(ctx.stack.pop().is_none());
}

#[test]
fn environment_insert_overwrites() {
    let mut ctx = run("1 :x @ 2 :x @ x");
    assert!(matches!(ctx.stack.pop(), Some(Value::Int(2))));
    assert!(ctx.stack.pop().is_none());
}

#[test]
fn stack_primitives() {
    let mut st = Stack::new();
    assert!(st.pop().is_none());
    assert!(st.peek().is_none());
    st.push(Value::Int(1));
    st.push(Value::Int(2));
    assert!(matches!(st.peek(), Some(Value::Int(2))));
    assert!(matches!(st.pop(), Some(Value::Int(2))));
    assert!(matches!(st.pop(), Some(Value::Int(1))));
    assert!(st.pop().is_none());
}

#[test]
fn env_primitives() {
    let mut env = Env::new();
    assert!(env.get("a").is_none());
    env.insert("a", Value::Int(1));
    env.insert("b", Value::Int(2));
    assert!(matches!(env.get("a"), Some(Value::Int(1))));
    assert!(matches!(env.get("b"), Some(Value::Int(2))));
    env.insert("a", Value::Int(3));
    assert!(matches!(env.get("a"), Some(Value::Int(3))));
}

#[test]
fn literal_values_push_by_copy() {
    let mut ctx = run("\"hello\" #t 2");
    assert!(matches!(ctx.stack.pop(), Some(Value::Int(2))));
    assert!(matches!(ctx.stack.pop(), Some(Value::Boolean(true))));
    assert!(matches!(ctx.stack.pop(), Some(Value::Text(s)) if s == "hello"));
    assert!(ctx.stack.pop().is_none());
}

#[test]
fn symbols_evaluate_to_themselves() {
    let mut ctx = run(":only");
    assert!(matches!(ctx.stack.pop(), Some(Value::Symbol(s)) if s.name == "only" && s.id == 0));
}

#[test]
fn symbol_ended_by_semicolon_opens_comment() {
    let toks = tokenize(":s;x\ny").expect("tokenize");
    assert_eq!(toks.len(), 2);
    assert!(matches!(&toks[0], Token::Symbol(s) if s == "s"));
    assert!(matches!(&toks[1], Token::Word(s) if s == "y"));
}

#[test]
fn swap_on_short_stack_is_noop() {
    let mut ctx = run("1 swap");
    assert!(matches!(ctx.stack.pop(), Some(Value::Int(1))));
    assert!(ctx.stack.pop().is_none());
}

#[test]
fn bind_with_non_symbol_consumes_operands() {
    let mut ctx = run("1 2 @");
    assert!(ctx.stack.pop().is_none());
}

#[test]
fn vpush_on_non_vector_pushes_it_back() {
    let mut ctx = run("1 2 vpush!");
    assert!(matches!(ctx.stack.pop(), Some(Value::Int(1))));
    assert!(ctx.stack.pop().is_none());
}

#[test]
fn vget_out_of_bounds_pushes_nothing() {
    let mut ctx = run("make-vec 5 vpush! 9 vget");
    assert!(ctx.stack.pop().is_none());
}
