//! The language: tokens, lines, expressions, signatures, selectors, values.

use bterm::ask::{FloatOp, Query, Replies, Reply, Stop, Ticket};
use bterm::ast::{Arg, Call, Closure, Expr, Line};
use bterm::callable::{is_truthy, Fault, FnCompiler, NoFnCompiler, Selector};
use bterm::error::{ShellError, Span};
use bterm::expr::{NativeClosure, Scope};
use bterm::float::Float;
use bterm::lex::{lex as lex_with, InterpPart, Op, Token, TokenKind};
use bterm::mux::share::Share;
use bterm::parse::{parse as parse_with, ParseOutcome};
use bterm::signature::{bind as bind_with, BoundCall, Shape, Signature};
use bterm::value::Value;
use std::cmp::Ordering;

fn float(f: f64) -> Float {
    Float { bits: f.to_bits() }
}

fn number(f: Float) -> f64 {
    f64::from_bits(f.bits)
}

fn compute(op: FloatOp, a: f64, b: f64) -> f64 {
    match op {
        FloatOp::Add => a + b,
        FloatOp::Sub => a - b,
        FloatOp::Mul => a * b,
        FloatOp::Div => a / b,
        FloatOp::Rem => a % b,
    }
}

fn json_of(v: &Value) -> serde_json::Value {
    match v {
        Value::Null => serde_json::Value::Null,
        Value::Bool(b) => serde_json::Value::Bool(*b),
        Value::Int(n) => serde_json::Value::from(*n),
        Value::Float(f) => serde_json::Value::from(number(*f)),
        Value::Str(s) => serde_json::Value::from(s.clone()),
        Value::Bytes(b) => serde_json::Value::from(b.as_slice()),
        Value::List(items) => serde_json::Value::Array(items.iter().map(json_of).collect()),
        Value::Record(fields) => {
            let mut out = serde_json::Map::new();
            for i in 0..fields.len() {
                out.insert(fields.name(i).clone(), json_of(fields.at(i)));
            }
            serde_json::Value::Object(out)
        }
    }
}

fn value_of(v: &serde_json::Value) -> Value {
    match v {
        serde_json::Value::Null => Value::Null,
        serde_json::Value::Bool(b) => Value::Bool(*b),
        serde_json::Value::Number(n) => match n.as_i64() {
            Some(i) => Value::Int(i),
            None => Value::Float(float(n.as_f64().unwrap_or(0.0))),
        },
        serde_json::Value::String(s) => Value::Str(s.clone()),
        serde_json::Value::Array(items) => Value::List(items.iter().map(value_of).collect()),
        serde_json::Value::Object(fields) => {
            Value::record(fields.iter().map(|(k, v)| (k.clone(), value_of(v))).collect())
        }
    }
}

/// What any program answers: arithmetic, texts of floats and JSON.
fn calculate(q: &Query) -> Reply {
    match q {
        Query::ParseFloat(s) => match s.parse::<f64>() {
            Ok(f) => Reply::Float(float(f)),
            Err(e) => Reply::Refused(e.to_string()),
        },
        Query::ShowFloat(f) => Reply::Text(number(*f).to_string()),
        Query::Compute(op, a, b) => Reply::Float(float(compute(*op, number(*a), number(*b)))),
        Query::Share(op, a, b) => {
            let (x, y) = (f32::from_bits(a.bits), f32::from_bits(b.bits));
            let z = match op {
                FloatOp::Add => x + y,
                FloatOp::Sub => x - y,
                FloatOp::Mul => x * y,
                FloatOp::Div => x / y,
                FloatOp::Rem => x % y,
            };
            Reply::Share(Share { bits: z.to_bits() })
        }
        Query::WriteJson(v, pretty) => {
            let json = json_of(v);
            let text = if *pretty {
                serde_json::to_string_pretty(&json)
            } else {
                serde_json::to_string(&json)
            };
            Reply::Text(text.expect("values serialize"))
        }
        Query::ReadJson(s) => match serde_json::from_str::<serde_json::Value>(s) {
            Ok(v) => Reply::Value(value_of(&v)),
            Err(e) => Reply::Refused(e.to_string()),
        },
        other => panic!("no answer to {other:?}"),
    }
}

/// Run a computation, answering what it asks.
fn settle<T>(mut f: impl FnMut(&Replies) -> Result<T, Stop>) -> Result<T, ShellError> {
    let mut replies = Replies::new();
    loop {
        match f(&replies) {
            Ok(v) => return Ok(v),
            Err(Stop::Fail(e)) => return Err(e),
            Err(Stop::Need(q)) => {
                let r = calculate(&q);
                replies.add_reply(q, r);
            }
        }
    }
}

fn lex(src: &str) -> Result<Vec<Token>, ShellError> {
    settle(|r| lex_with(src, r))
}

fn parse(src: &str) -> ParseOutcome {
    settle(|r| parse_with(src, r).map_err(Stop::Need)).expect("parsing answers")
}

fn bind(
    sig: &Signature,
    words: &[bterm::ast::Spanned<String>],
    call: &Call,
    scope: &Scope,
) -> Result<BoundCall, ShellError> {
    settle(|r| bind_with(sig, words, call, scope, r))
}

fn kinds(src: &str) -> Vec<TokenKind> {
    lex(src).expect("lex ok").into_iter().map(|t| t.kind).collect()
}

#[test]
fn barewords_and_pipes() {
    assert_eq!(
        kinds("links | head 5"),
        vec![
            TokenKind::Bareword("links".into()),
            TokenKind::Pipe,
            TokenKind::Bareword("head".into()),
            TokenKind::Int(5),
        ]
    );
}

#[test]
fn flags_long_short_eq() {
    assert_eq!(
        kinds("ls --limit=20 -a --all"),
        vec![
            TokenKind::Bareword("ls".into()),
            TokenKind::Flag { name: "limit".into(), long: true, has_eq: true },
            TokenKind::Int(20),
            TokenKind::Flag { name: "a".into(), long: false, has_eq: false },
            TokenKind::Flag { name: "all".into(), long: true, has_eq: false },
        ]
    );
}

#[test]
fn negative_number_vs_flag_vs_bareword() {
    assert_eq!(kinds("-2"), vec![TokenKind::Int(-2)]);
    assert_eq!(kinds("-1.5"), vec![TokenKind::Float(float(-1.5))]);
    assert_eq!(
        kinds("-f"),
        vec![TokenKind::Flag { name: "f".into(), long: false, has_eq: false }]
    );
    assert_eq!(kinds("-v2.1"), vec![TokenKind::Bareword("-v2.1".into())]);
}

#[test]
fn strings_raw_and_interp() {
    assert_eq!(kinds("'a b'"), vec![TokenKind::StrRaw("a b".into())]);
    assert_eq!(
        kinds(r#""hi $name!""#),
        vec![TokenKind::StrInterp(vec![
            InterpPart::Lit("hi ".into()),
            InterpPart::Var("name".into()),
            InterpPart::Lit("!".into()),
        ])]
    );
}

#[test]
fn comments_are_skipped() {
    assert_eq!(kinds("echo hi # rest ignored"), vec![
        TokenKind::Bareword("echo".into()),
        TokenKind::Bareword("hi".into()),
    ]);
}

#[test]
fn operator_tokens() {
    assert_eq!(kinds("("), vec![TokenKind::Op(Op::LParen)]);
    assert_eq!(kinds("&&"), vec![TokenKind::Op(Op::AndAnd)]);
    assert_eq!(kinds("||"), vec![TokenKind::Op(Op::OrOr)]);
    assert_eq!(kinds(">="), vec![TokenKind::Op(Op::Ge)]);
    assert_eq!(kinds("=="), vec![TokenKind::Op(Op::EqEq)]);
    assert_eq!(kinds("!="), vec![TokenKind::Op(Op::Ne)]);
    // A single `&` (background jobs) is still fenced off.
    assert_eq!(kinds("&"), vec![TokenKind::Reserved("&".into())]);
}

#[test]
fn arithmetic_symbols_are_operators_only_when_standalone() {
    assert_eq!(kinds("+"), vec![TokenKind::Op(Op::Plus)]);
    assert_eq!(kinds("*"), vec![TokenKind::Op(Op::Star)]);
    // Embedded in a word they stay part of the bareword, so ordinary
    // arguments like `c++` or `a/b` are unaffected.
    assert_eq!(kinds("c++"), vec![TokenKind::Bareword("c++".into())]);
    assert_eq!(kinds("a/b"), vec![TokenKind::Bareword("a/b".into())]);
}

#[test]
fn closure_braces_and_pipes_lex() {
    assert_eq!(
        kinds("{|x| $x}"),
        vec![
            TokenKind::Op(Op::LBrace),
            TokenKind::Pipe,
            TokenKind::Bareword("x".into()),
            TokenKind::Pipe,
            TokenKind::Var("x".into()),
            TokenKind::Op(Op::RBrace),
        ]
    );
}

#[test]
fn unterminated_string_errors() {
    assert!(lex("'oops").is_err());
    assert!(lex("\"oops").is_err());
}

#[test]
fn huge_int_rejected() {
    assert!(lex("9007199254740993").is_err());
    assert!(lex("9007199254740992").is_ok());
}

#[test]
fn i64_min_rejected_not_panicking() {
    // `.abs()` would overflow on i64::MIN (panic in debug, silent
    // acceptance in release).
    let err = lex("-9223372036854775808").expect_err("must reject");
    assert!(err.msg.contains("2^53"));
}

#[test]
fn overflowing_float_literal_rejected() {
    let huge = format!("1{}0.5", "0".repeat(400));
    assert!(lex(&huge).is_err(), "non-finite float literal must be rejected");
}

#[test]
fn var_names_stop_at_dash_like_interpolation() {
    let toks = kinds("$a-b");
    assert_eq!(toks[0], TokenKind::Var("a".into()));
    // And inside interpolation the same boundary applies.
    assert_eq!(
        kinds(r#""$a-b""#),
        vec![TokenKind::StrInterp(vec![
            InterpPart::Var("a".into()),
            InterpPart::Lit("-b".into()),
        ])]
    );
}

#[test]
fn spans_are_byte_accurate() {
    let toks = lex("echo 'hi'").expect("lex ok");
    assert_eq!(toks[0].span, Span::new(0, 4));
    assert_eq!(toks[1].span, Span::new(5, 9));
}

fn ok(src: &str) -> Line {
    let out = parse(src);
    assert!(out.errors.is_empty(), "unexpected errors: {:?}", out.errors);
    out.line
}

#[test]
fn flagship_demo_line_parses() {
    let line = ok("links --limit 20 | filter {|o| $o.text != ''} | head 5");
    assert_eq!(line.pipelines.len(), 1);
    let calls = &line.pipelines[0].calls;
    assert_eq!(calls.len(), 3);
    assert_eq!(calls[0].words[0].node, "links");
    // `filter {closure}` → head `filter` + one positional closure arg.
    assert_eq!(calls[1].words[0].node, "filter");
    assert_eq!(calls[1].args.len(), 1);
    assert!(matches!(&calls[1].args[0], Arg::Positional(e) if e.as_closure().is_some()));
}

#[test]
fn multi_word_heads_collect_leading_barewords() {
    let line = ok("str upcase hello");
    let call = &line.pipelines[0].calls[0];
    assert_eq!(
        call.words.iter().map(|w| w.node.as_str()).collect::<Vec<_>>(),
        vec!["str", "upcase", "hello"]
    );
}

#[test]
fn semicolons_split_pipelines() {
    let line = ok("echo a; echo b | length");
    assert_eq!(line.pipelines.len(), 2);
    assert_eq!(line.pipelines[1].calls.len(), 2);
}

#[test]
fn flag_with_eq_value() {
    let line = ok("links --limit=20");
    let call = &line.pipelines[0].calls[0];
    match &call.args[0] {
        Arg::Flag { name, value: Some(Expr::Literal(Value::Int(20), _)), .. } => {
            assert_eq!(name, "limit");
        }
        other => panic!("unexpected arg: {other:?}"),
    }
}

#[test]
fn operators_outside_a_closure_point_at_closures() {
    // Arithmetic at pipeline level isn't supported, but the error now
    // tells you where operators *do* work rather than saying "reserved".
    let out = parse("echo (1 + 2)");
    assert_eq!(out.errors.len(), 1);
    assert!(out.errors[0].msg.contains("only be used inside a closure"), "{}", out.errors[0].msg);
    assert!(out.errors[0].help.as_deref().unwrap_or("").contains("{|x|"));
}

#[test]
fn still_reserved_syntax_reports_not_supported() {
    let out = parse("echo & background");
    assert_eq!(out.errors.len(), 1);
    assert!(out.errors[0].msg.contains("not supported yet"));
}

#[test]
fn recovery_syncs_to_next_pipeline() {
    let out = parse("echo ( | length; echo ok");
    assert!(!out.errors.is_empty());
    // The `echo ok` after `;` still parsed (both words are leading
    // barewords; head/positional split happens at eval time).
    assert!(out.line.pipelines.iter().any(|p| p.calls.iter().any(|c| {
        let words: Vec<&str> = c.words.iter().map(|w| w.node.as_str()).collect();
        words == ["echo", "ok"]
    })));
}

#[test]
fn multiple_diagnostics_per_line() {
    let out = parse("echo ( ; echo {");
    assert_eq!(out.errors.len(), 2);
}

/// Parse `<line>` and pull out the closure in its first argument.
fn closure_of(src: &str) -> Closure {
    let out = parse(src);
    assert!(out.errors.is_empty(), "{:?}", out.errors);
    let call = &out.line.pipelines[0].calls[0];
    match &call.args[0] {
        Arg::Positional(e) => e.as_closure().expect("a closure").clone(),
        other => panic!("expected a positional closure, got {other:?}"),
    }
}

fn apply(src: &str, item: Value) -> Result<Value, String> {
    let closure = NativeClosure::new(closure_of(src), Scope::new());
    settle(|r| closure.call(&item, r)).map_err(|e| e.msg)
}

fn record(pairs: Vec<(&str, Value)>) -> Value {
    Value::record(pairs.into_iter().map(|(k, v)| (k.to_string(), v)).collect())
}

#[test]
fn comparison_on_a_field() {
    let item = record(vec![("n", Value::Int(7))]);
    assert_eq!(apply("f {|x| $x.n > 5}", item.clone()), Ok(Value::Bool(true)));
    assert_eq!(apply("f {|x| $x.n < 5}", item), Ok(Value::Bool(false)));
}

#[test]
fn precedence_and_grouping() {
    let item = Value::Null;
    // * binds tighter than +
    assert_eq!(apply("f {|x| 2 + 3 * 4}", item.clone()), Ok(Value::Int(14)));
    assert_eq!(apply("f {|x| (2 + 3) * 4}", item.clone()), Ok(Value::Int(20)));
    // comparison binds looser than arithmetic
    assert_eq!(apply("f {|x| 2 + 3 > 4}", item.clone()), Ok(Value::Bool(true)));
    // && binds tighter than ||
    assert_eq!(
        apply("f {|x| false && false || true}", item),
        Ok(Value::Bool(true))
    );
}

#[test]
fn logical_operators_short_circuit() {
    // The right side would fail on a missing field if it were evaluated
    // eagerly against a non-record.
    let item = record(vec![("n", Value::Null)]);
    assert_eq!(
        apply("f {|x| $x.n != null && $x.n > 5}", item),
        Ok(Value::Bool(false))
    );
}

#[test]
fn string_concat_and_numeric_add() {
    let item = record(vec![("a", Value::Str("x".into())), ("n", Value::Int(2))]);
    assert_eq!(
        apply("f {|x| $x.a + $x.n}", item.clone()),
        Ok(Value::Str("x2".into()))
    );
    assert_eq!(apply("f {|x| $x.n + 3}", item), Ok(Value::Int(5)));
}

#[test]
fn unary_not_and_negate() {
    let item = record(vec![("n", Value::Int(3))]);
    assert_eq!(apply("f {|x| !$x.n}", item.clone()), Ok(Value::Bool(false)));
    assert_eq!(apply("f {|x| -$x.n}", item), Ok(Value::Int(-3)));
}

#[test]
fn nested_field_paths_and_missing_fields() {
    let item = record(vec![("u", record(vec![("name", Value::Str("ada".into()))]))]);
    assert_eq!(
        apply("f {|x| $x.u.name}", item.clone()),
        Ok(Value::Str("ada".into()))
    );
    // Missing is Null, not an error.
    assert_eq!(apply("f {|x| $x.nope.deep}", item), Ok(Value::Null));
}

#[test]
fn division_by_zero_and_overflow_are_errors() {
    assert!(apply("f {|x| 1 / 0}", Value::Null).is_err());
    assert!(apply("f {|x| 1 % 0}", Value::Null).is_err());
}

#[test]
fn length_pseudo_field_on_strings_lists_and_records() {
    let item = record(vec![
        ("s", Value::Str("hello".into())),
        ("l", Value::List(vec![Value::Int(1), Value::Int(2)])),
    ]);
    assert_eq!(apply("f {|x| $x.s.length}", item.clone()), Ok(Value::Int(5)));
    assert_eq!(apply("f {|x| $x.l.length}", item.clone()), Ok(Value::Int(2)));
    assert_eq!(apply("f {|x| $x.s.length > 4}", item), Ok(Value::Bool(true)));
}

#[test]
fn a_real_length_field_shadows_the_pseudo_field() {
    let item = record(vec![("length", Value::Str("actual".into()))]);
    assert_eq!(
        apply("f {|x| $x.length}", item),
        Ok(Value::Str("actual".into()))
    );
}

#[test]
fn comparing_a_missing_field_is_false_not_an_error() {
    // A ragged row must not abort the whole pipeline.
    let item = record(vec![("other", Value::Int(1))]);
    assert_eq!(apply("f {|x| $x.nope > 5}", item.clone()), Ok(Value::Bool(false)));
    assert_eq!(apply("f {|x| $x.nope < 5}", item.clone()), Ok(Value::Bool(false)));
    // Equality still works normally against null.
    assert_eq!(apply("f {|x| $x.nope == null}", item), Ok(Value::Bool(true)));
}

#[test]
fn incomparable_types_error_clearly() {
    let item = record(vec![("a", Value::Str("x".into()))]);
    let err = apply("f {|x| $x.a > 5}", item).expect_err("string vs int");
    assert!(err.contains("cannot compare"), "{err}");
}

#[test]
fn parameter_name_is_arbitrary() {
    let item = record(vec![("n", Value::Int(1))]);
    assert_eq!(apply("f {|row| $row.n}", item), Ok(Value::Int(1)));
}

fn sig() -> Signature {
    Signature::build("links", "List links")
        .optional_arg("pattern", Shape::Str, "substring filter")
        .flag("limit", Some('l'), Some(Shape::Int), "max results")
        .flag("all", Some('a'), None, "include empty links")
}

fn call(src: &str) -> Call {
    let mut out = parse(src);
    assert!(out.errors.is_empty(), "{:?}", out.errors);
    out.line.pipelines.remove(0).calls.remove(0)
}

fn bind_src(src: &str) -> Result<BoundCall, ShellError> {
    let c = call(src);
    bind(&sig(), &c.words[1..], &c, &Scope::new())
}

#[test]
fn binds_positionals_flags_and_switches() {
    let b = bind_src("links docs --limit 5 --all").expect("bind");
    assert_eq!(b.positionals, vec![Value::Str("docs".into())]);
    assert_eq!(b.flag("limit"), Some(&Value::Int(5)));
    assert!(b.has_flag("all"));
}

#[test]
fn eq_and_space_flag_values_equivalent() {
    let a = bind_src("links --limit=7").expect("bind");
    let b = bind_src("links --limit 7").expect("bind");
    assert_eq!(a.flag("limit"), b.flag("limit"));
}

#[test]
fn short_flag_resolves_to_long_name() {
    let b = bind_src("links -l 3").expect("bind");
    assert_eq!(b.flag("limit"), Some(&Value::Int(3)));
}

#[test]
fn an_unterminated_string_names_its_quote() {
    let out = parse("\"");
    assert_eq!(out.errors[0].msg, "unterminated string: expected a closing `\"`");
    let out = parse("'");
    assert_eq!(out.errors[0].msg, "unterminated string: expected a closing `'`");
}

#[test]
fn every_spelling_of_a_flag_binds_alike() {
    for v in [0_i64, 5, -5, 1234, 9_007_199_254_740_991, -9_007_199_254_740_991] {
        for src in [format!("links --limit={v}"), format!("links --limit {v}"), format!("links -l {v}")] {
            let b = bind_src(&src).expect("bind");
            assert_eq!(b.flag("limit"), Some(&Value::Int(v)), "{src}");
            assert!(b.positionals.is_empty(), "{src}");
            assert!(!b.has_flag("l"), "{src}");
        }
    }
    let short = bind_src("links docs -l 5 -a").expect("bind");
    let long = bind_src("links docs --limit 5 --all").expect("bind");
    assert_eq!(short.positionals, long.positionals);
    assert_eq!(short.flag("limit"), long.flag("limit"));
    assert_eq!(short.flag("all"), long.flag("all"));
}

#[test]
fn unknown_flag_suggests() {
    let err = bind_src("links --limt 3").expect_err("should fail");
    assert!(err.msg.contains("unknown flag"));
    assert_eq!(err.help.as_deref(), Some("did you mean `--limit`?"));
}

#[test]
fn wrong_type_points_at_value_span() {
    let err = bind_src("links --limit five").expect_err("should fail");
    assert!(err.msg.contains("expects an int"), "{}", err.msg);
    assert!(err.span.is_some());
}

#[test]
fn extra_positionals_error_without_rest() {
    let err = bind_src("links a b").expect_err("should fail");
    assert!(err.msg.contains("at most"), "{}", err.msg);
}

#[test]
fn missing_required_errors() {
    let s = Signature::build("get", "Get a column").required_arg("column", Shape::Str, "column name");
    let c = call("get");
    let err = bind(&s, &c.words[1..], &c, &Scope::new()).expect_err("should fail");
    assert!(err.msg.contains("missing required argument `column`"));
}

#[test]
fn vars_and_interpolation() {
    let mut scope = Scope::new();
    scope.insert("name".into(), Value::Str("world".into()));
    let c = call(r#"links "hi $name" --limit $name"#);
    let err = bind(&sig(), &c.words[1..], &c, &scope).expect_err("limit should reject non-int");
    assert!(err.msg.contains("expects an int"));

    let c = call(r#"links "hi $name""#);
    let b = bind(&sig(), &c.words[1..], &c, &scope).expect("bind");
    assert_eq!(b.positionals, vec![Value::Str("hi world".into())]);
}

#[test]
fn help_renders_usage() {
    let text = sig().render_help();
    assert!(text.contains("Usage:"));
    assert!(text.contains("--limit"));
    assert!(text.contains("[pattern]"));
}

/// Stands in for a JS host: recognizes two canned sources so selector plumbing
/// is testable natively.
struct FakeHost {
    calls: std::cell::RefCell<usize>,
}

impl FakeHost {
    fn answer(&self, q: &Query) -> Reply {
        match q {
            Query::CompileFn(source) => {
                *self.calls.borrow_mut() += 1;
                if source.contains("* 2") {
                    Reply::Handle(7)
                } else {
                    Reply::Refused(format!("cannot compile `{source}`"))
                }
            }
            Query::LookupFn(name) => {
                if name == "double" {
                    Reply::Handle(7)
                } else {
                    Reply::Refused(format!("no registered function `{name}`"))
                }
            }
            Query::CallFn(7, _, value) => match value {
                Value::Int(n) => Reply::Value(Value::Int(n * 2)),
                other => Reply::Refused(format!("expected int, got {}", other.type_label())),
            },
            other => panic!("no answer to {other:?}"),
        }
    }
}

fn host() -> FakeHost {
    FakeHost { calls: std::cell::RefCell::new(0) }
}

fn settle_with<T>(
    host: &FakeHost,
    mut f: impl FnMut(&Replies) -> Result<T, Fault>,
) -> Result<T, String> {
    let mut replies = Replies::new();
    loop {
        match f(&replies) {
            Ok(v) => return Ok(v),
            Err(Fault::Message(e)) => return Err(e),
            Err(Fault::Need(q)) => {
                let r = host.answer(&q);
                replies.add_reply(q, r);
            }
        }
    }
}

fn select(spec: &str, host: &FakeHost) -> Result<Selector, String> {
    settle_with(host, |r| Selector::parse(spec, r))
}

fn apply_to(s: &Selector, v: &Value) -> Result<Value, String> {
    settle_with(&host(), |r| s.apply(v, Ticket { step: 0, nth: 0 }, r))
}

#[test]
fn plain_word_is_a_field() {
    let s = select("href", &host()).expect("parse");
    assert_eq!(s.head_field(), Some("href"));
    let v = record(vec![("href", Value::Str("x".into()))]);
    assert_eq!(apply_to(&s, &v).expect("apply"), Value::Str("x".into()));
}

#[test]
fn dotted_path_walks_nested_records() {
    let s = select("user.name", &host()).expect("parse");
    let v = record(vec![(
        "user",
        record(vec![("name", Value::Str("ada".into()))]),
    )]);
    assert_eq!(apply_to(&s, &v).expect("apply"), Value::Str("ada".into()));
}

#[test]
fn missing_field_is_null_not_an_error() {
    let s = select("nope.deeper", &host()).expect("parse");
    let v = record(vec![("a", Value::Int(1))]);
    assert_eq!(apply_to(&s, &v).expect("apply"), Value::Null);
    // Scalars have no fields either — still Null, not a failure.
    assert_eq!(apply_to(&s, &Value::Int(3)).expect("apply"), Value::Null);
}

#[test]
fn arrow_source_compiles_through_the_host() {
    let h = host();
    let s = select("(o) => o * 2", &h).expect("parse");
    assert_eq!(*h.calls.borrow(), 1, "went to the host compiler");
    assert_eq!(apply_to(&s, &Value::Int(21)).expect("apply"), Value::Int(42));
}

#[test]
fn at_prefix_looks_up_a_registered_function() {
    let s = select("@double", &host()).expect("parse");
    assert_eq!(apply_to(&s, &Value::Int(4)).expect("apply"), Value::Int(8));
    let err = select("@missing", &host()).err().expect("unknown");
    assert!(err.contains("no registered function"), "{err}");
    assert!(select("@", &host()).is_err());
}

#[test]
fn native_host_rejects_inline_source_with_guidance() {
    let mut replies = Replies::new();
    let q = match Selector::parse("(o) => o.id", &replies) {
        Err(Fault::Need(q)) => q,
        other => panic!("expected a question, got {:?}", other.is_ok()),
    };
    let refusal = NoFnCompiler.compile("(o) => o.id").expect_err("no engine");
    assert_eq!(NoFnCompiler.dialect(), "none");
    replies.add_reply(q, Reply::Refused(refusal));
    let err = match Selector::parse("(o) => o.id", &replies) {
        Err(Fault::Message(e)) => e,
        _ => panic!("no engine"),
    };
    assert!(err.contains("JavaScript host"), "{err}");
}

#[test]
fn spaced_non_arrow_spec_is_a_clear_error() {
    // Catches an unquoted or malformed function before it silently
    // becomes a bizarre field name.
    let err = select("o.id > 5", &host()).err().expect("not a field");
    assert!(err.contains("not a field path"), "{err}");
}

#[test]
fn callable_errors_propagate() {
    let s = select("(o) => o * 2", &host()).expect("parse");
    let err = apply_to(&s, &Value::Str("nope".into())).expect_err("type error");
    assert!(err.contains("expected int"), "{err}");
}

#[test]
fn truthiness_follows_javascript() {
    assert!(!is_truthy(&Value::Null));
    assert!(!is_truthy(&Value::Bool(false)));
    assert!(!is_truthy(&Value::Int(0)));
    assert!(!is_truthy(&Value::Str(String::new())));
    assert!(is_truthy(&Value::Int(1)));
    assert!(is_truthy(&Value::Str("x".into())));
    // Empty collections are truthy, as in JS.
    assert!(is_truthy(&Value::List(vec![])));
    assert!(is_truthy(&Value::Bytes(vec![])));
}

#[test]
fn json_round_trip_is_natural() {
    let v = Value::record(vec![
        ("name".to_string(), Value::Str("rust".into())),
        ("stars".to_string(), Value::Int(42)),
    ]);
    let json = serde_json::to_string(&json_of(&v)).expect("serialize");
    assert_eq!(json, r#"{"name":"rust","stars":42}"#);
    let back: Value = value_of(&serde_json::from_str(&json).expect("deserialize"));
    assert_eq!(back, v);
}

#[test]
fn untagged_numbers_deserialize_to_int_then_float() {
    let v: Value = value_of(&serde_json::from_str("3").expect("int"));
    assert_eq!(v, Value::Int(3));
    let v: Value = value_of(&serde_json::from_str("3.5").expect("float"));
    assert_eq!(v, Value::Float(float(3.5)));
}

#[test]
fn cross_numeric_compare() {
    assert_eq!(
        Value::Int(2).partial_cmp_values(&Value::Float(float(2.5))),
        Some(Ordering::Less)
    );
    assert!(Value::Int(2).loose_eq(&Value::Float(float(2.0))));
}

#[test]
fn table_detection() {
    assert!(Value::List(vec![Value::record(vec![("a".into(), Value::Int(1))])]).is_table());
    assert!(!Value::List(vec![Value::Int(1)]).is_table());
    assert!(!Value::Int(1).is_table());
}
