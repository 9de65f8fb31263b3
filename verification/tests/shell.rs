//! Whole lines: evaluation and the built-in commands.

use bterm::ask::{FloatOp, Query, Replies, Reply, Stop};
use bterm::builtins::collect::to_json;
use bterm::builtins::register_all;
use bterm::callable::{refuse_lookup, FnCompiler, NoFnCompiler};
use bterm::chan::{Received, Sent};
use bterm::error::{ShellError, Span};
use bterm::eval::{LineRun, Turn};
use bterm::expr::Scope;
use bterm::float::Float;
use bterm::matcher::{Pattern, PatternMatcher, SubstringMatcher};
use bterm::mux::share::Share;
use bterm::parse::{parse as parse_with, ParseOutcome};
use bterm::pipeline::{Env, Stage};
use bterm::registry::{CommandRegistry, PipelineData};
use bterm::signature::{BoundCall, Shape, Signature};
use bterm::sink::{CollectingSink, Record, Sink};
use bterm::stream::{collect, flatten};
use bterm::value::{Fields, Value};

fn float(f: f64) -> Float {
    Float { bits: f.to_bits() }
}

fn number(f: Float) -> f64 {
    f64::from_bits(f.bits)
}

fn compute(op: FloatOp, a: f64, b: f64) -> f64 {
    match op {
        FloatOp::Add => a + b,
        FloatOp::Sub => a - b,
        FloatOp::Mul => a * b,
        FloatOp::Div => a / b,
        FloatOp::Rem => a % b,
    }
}

fn json_of(v: &Value) -> serde_json::Value {
    match v {
        Value::Null => serde_json::Value::Null,
        Value::Bool(b) => serde_json::Value::Bool(*b),
        Value::Int(n) => serde_json::Value::from(*n),
        Value::Float(f) => serde_json::Value::from(number(*f)),
        Value::Str(s) => serde_json::Value::from(s.clone()),
        Value::Bytes(b) => serde_json::Value::from(b.as_slice()),
        Value::List(items) => serde_json::Value::Array(items.iter().map(json_of).collect()),
        Value::Record(fields) => {
            let mut out = serde_json::Map::new();
            for i in 0..fields.len() {
                out.insert(fields.name(i).clone(), json_of(fields.at(i)));
            }
            serde_json::Value::Object(out)
        }
    }
}

fn value_of(v: &serde_json::Value) -> Value {
    match v {
        serde_json::Value::Null => Value::Null,
        serde_json::Value::Bool(b) => Value::Bool(*b),
        serde_json::Value::Number(n) => match n.as_i64() {
            Some(i) => Value::Int(i),
            None => Value::Float(float(n.as_f64().unwrap_or(0.0))),
        },
        serde_json::Value::String(s) => Value::Str(s.clone()),
        serde_json::Value::Array(items) => Value::List(items.iter().map(value_of).collect()),
        serde_json::Value::Object(fields) => {
            Value::record(fields.iter().map(|(k, v)| (k.clone(), value_of(v))).collect())
        }
    }
}

/// What any program answers: arithmetic, texts of floats and JSON.
fn calculate(q: &Query) -> Reply {
    match q {
        Query::ParseFloat(s) => match s.parse::<f64>() {
            Ok(f) => Reply::Float(float(f)),
            Err(e) => Reply::Refused(e.to_string()),
        },
        Query::ShowFloat(f) => Reply::Text(number(*f).to_string()),
        Query::Compute(op, a, b) => Reply::Float(float(compute(*op, number(*a), number(*b)))),
        Query::Share(op, a, b) => {
            let (x, y) = (f32::from_bits(a.bits), f32::from_bits(b.bits));
            let z = match op {
                FloatOp::Add => x + y,
                FloatOp::Sub => x - y,
                FloatOp::Mul => x * y,
                FloatOp::Div => x / y,
                FloatOp::Rem => x % y,
            };
            Reply::Share(Share { bits: z.to_bits() })
        }
        Query::WriteJson(v, pretty) => {
            let json = json_of(v);
            let text = if *pretty {
                serde_json::to_string_pretty(&json)
            } else {
                serde_json::to_string(&json)
            };
            Reply::Text(text.expect("values serialize"))
        }
        Query::ReadJson(s) => match serde_json::from_str::<serde_json::Value>(s) {
            Ok(v) => Reply::Value(value_of(&v)),
            Err(e) => Reply::Refused(e.to_string()),
        },
        other => panic!("no answer to {other:?}"),
    }
}

/// The services of the program in a test.
struct TestHost {
    patterns: Vec<Box<dyn Pattern>>,
    sink: CollectingSink,
    /// What the endless producer got rid of.
    counted: i64,
}

impl TestHost {
    fn new() -> Self {
        TestHost { patterns: Vec::new(), sink: CollectingSink::new(), counted: 0 }
    }

    fn answer(&mut self, q: &Query) -> Reply {
        match q {
            Query::History => Reply::Texts(vec!["echo 1".into(), "help".into()]),
            // Two entries, not one: a singleton overview would itself collapse
            // to a bare record on the way out of `help`, masking the "is a
            // table" check that `help_overview_is_a_table` means to exercise.
            Query::HelpOverview => Reply::Listing(vec![
                ("echo".into(), "Return the given values".into()),
                ("get".into(), "Extract a column from a record or table".into()),
            ]),
            Query::HelpFor(name) if name == "echo" => Reply::Text("echo help text".to_string()),
            Query::HelpFor(name) => Reply::Refused(name.clone()),
            Query::CompilePattern(p, i) => match SubstringMatcher.compile(p, *i) {
                Ok(p) => {
                    self.patterns.push(p);
                    Reply::Handle(self.patterns.len() as u64 - 1)
                }
                Err(e) => Reply::Refused(e),
            },
            Query::Match(p, s) => Reply::Truth(self.patterns[*p as usize].is_match(s)),
            Query::PatternDialect => Reply::Text(SubstringMatcher.dialect().to_string()),
            Query::CompileFn(s) => Reply::Refused(NoFnCompiler.compile(s).expect_err("native")),
            Query::LookupFn(s) => Reply::Refused(refuse_lookup(s)),
            other => calculate(other),
        }
    }

    /// The commands of this host, by their handles.
    fn serve(&mut self, line: &mut LineRun, k: usize, handle: u64, arg: i64) -> bool {
        let run = &mut line.run;
        if handle == ENDLESS {
            loop {
                let n = self.counted + 1;
                match run.outside_send(k, whole(n)) {
                    Sent::Taken => self.counted = n,
                    Sent::Full(_) => return false,
                    Sent::Closed => {
                        // The send failed: the producer was told to stop.
                        run.outside_finish(k, None);
                        return true;
                    }
                }
            }
        }
        let mut taken = Vec::new();
        loop {
            match run.outside_recv(k) {
                Received::Item(d) => taken.push(d.into_value()),
                Received::Waiting => return false,
                Received::Ended => break,
            }
        }
        let out = match handle {
            EMIT => Value::Int(arg),
            DOUBLE => match collect(taken).into_value() {
                Value::Int(n) => Value::Int(n * 2),
                other => other,
            },
            NOISY => {
                self.sink.write(Record::log("progress"));
                self.sink.write(Record::err("warning"));
                Value::Int(1)
            }
            _ => {
                run.outside_finish(k, Some(ShellError::runtime("boom")));
                return true;
            }
        };
        for d in flatten(PipelineData::Value(out)) {
            let _ = run.outside_send(k, d);
        }
        run.outside_finish(k, None);
        true
    }
}

const EMIT: u64 = 1;
const DOUBLE: u64 = 2;
const BOOM: u64 = 3;
const NOISY: u64 = 4;
const ENDLESS: u64 = 5;

fn whole(n: i64) -> PipelineData {
    PipelineData::Value(Value::Int(n))
}

fn parse(src: &str) -> ParseOutcome {
    let mut replies = Replies::new();
    loop {
        match parse_with(src, &replies) {
            Ok(out) => return out,
            Err(q) => {
                let r = calculate(&q);
                replies.add_reply(q, r);
            }
        }
    }
}

/// Run a parsed line to its end.
fn eval_line(
    out: ParseOutcome,
    registry: &CommandRegistry,
    host: &mut TestHost,
) -> (Vec<PipelineData>, Option<ShellError>) {
    let scope = Scope::new();
    let mut replies = Replies::new();
    let mut line = LineRun::new(out.line.pipelines);
    loop {
        let turn = {
            let env = Env { registry, scope: &scope, width: 80, replies: &replies };
            line.advance(&env)
        };
        match turn {
            Turn::Need(q) => {
                let r = host.answer(&q);
                replies.add_reply(q, r);
            }
            Turn::Moved => {}
            Turn::Waiting => {
                let mut moved = false;
                for k in 0..line.run.stages.len() {
                    let (handle, arg) = match &line.run.stages[k] {
                        Stage::Outside(h, call) => {
                            (*h, call.positionals.first().and_then(|v| v.as_int()).unwrap_or(0))
                        }
                        _ => continue,
                    };
                    let before = host.counted;
                    moved |= host.serve(&mut line, k, handle, arg) || host.counted > before;
                }
                assert!(moved, "nothing moves");
            }
            Turn::Complete => line.record_collected(),
            Turn::Written => {}
            Turn::Over => return (line.results, line.error),
        }
    }
}

fn last_value(mut results: Vec<PipelineData>) -> Value {
    results.pop().map(PipelineData::into_value).unwrap_or(Value::Null)
}

fn builtins() -> CommandRegistry {
    let mut registry = CommandRegistry::new();
    register_all(&mut registry);
    registry
}

/// Fake commands: `emit <n>` produces Int(n); `double` doubles its input; `boom`
/// always fails.
fn registry() -> CommandRegistry {
    let mut r = CommandRegistry::new();
    let emit = Signature::build("emit", "emit an int").required_arg("n", Shape::Int, "the int");
    r.register_external(emit, EMIT).expect("emit");
    r.register_external(Signature::build("double", "double the input"), DOUBLE).expect("double");
    r.register_external(Signature::build("boom", "always fails"), BOOM).expect("boom");
    r
}

fn eval_fake(src: &str) -> Result<Vec<Value>, ShellError> {
    let out = parse(src);
    assert!(out.errors.is_empty(), "{:?}", out.errors);
    let (results, error) = eval_line(out, &registry(), &mut TestHost::new());
    match error {
        Some(e) => Err(e),
        None => Ok(results.into_iter().map(PipelineData::into_value).collect()),
    }
}

/// Like `eval`, but returns parse errors as `Err` instead of asserting — for
/// cases where a parse failure is the expected outcome.
fn eval_any(src: &str) -> Result<Value, ShellError> {
    let mut out = parse(src);
    if !out.errors.is_empty() {
        return Err(out.errors.remove(0));
    }
    let (results, error) = eval_line(out, &builtins(), &mut TestHost::new());
    match error {
        Some(e) => Err(e),
        None => Ok(last_value(results)),
    }
}

fn eval(src: &str) -> Result<Value, ShellError> {
    let out = parse(src);
    assert!(out.errors.is_empty(), "{:?}", out.errors);
    eval_any(src)
}

#[test]
fn failing_pipeline_keeps_earlier_results() {
    let out = parse("emit 1; nope; emit 3");
    assert!(out.errors.is_empty());
    let (results, error) = eval_line(out, &registry(), &mut TestHost::new());
    let results: Vec<Value> = results.into_iter().map(PipelineData::into_value).collect();
    assert_eq!(results, vec![Value::Int(1)]);
    assert!(error.expect("second pipeline fails").msg.contains("unknown command"));
}

#[test]
fn pipeline_threads_values() {
    let results = eval_fake("emit 21 | double").expect("eval");
    assert_eq!(results, vec![Value::Int(42)]);
}

#[test]
fn semicolon_pipelines_all_evaluate() {
    let results = eval_fake("emit 1; emit 2 | double").expect("eval");
    assert_eq!(results, vec![Value::Int(1), Value::Int(4)]);
}

#[test]
fn unknown_command_suggests() {
    let err = eval_fake("emti 1").expect_err("should fail");
    assert!(err.msg.contains("unknown command `emti`"));
    assert_eq!(err.help.as_deref(), Some("did you mean `emit`?"));
}

#[test]
fn a_failing_stage_stops_the_pipeline_and_keeps_its_own_error() {
    // The first error wins: a later stage must not overwrite it with a
    // downstream symptom of the same failure.
    let err = eval_fake("emit 1 | boom | double").expect_err("boom should fail");
    assert!(err.msg.contains("boom"), "wrong error survived: {}", err.msg);
}

#[test]
fn a_three_stage_pipeline_threads_values_end_to_end() {
    // Two channels, three stages: proves the wiring is not accidentally
    // correct only for the single-channel case.
    let out = eval_fake("emit 5 | double | double").expect("eval");
    assert_eq!(out.into_iter().last(), Some(Value::Int(20)));
}

#[test]
fn help_intercepted_before_binding() {
    // Missing required arg, but --help still works.
    let out = parse("emit --help");
    let (results, error) = eval_line(out, &registry(), &mut TestHost::new());
    assert!(error.is_none(), "{error:?}");
    match &results[0] {
        // Rendered, not Value(Str): help is pre-formatted text and must reach
        // the terminal with its styling intact.
        PipelineData::Rendered(s) => {
            assert!(s.contains("Usage:"));
            assert!(s.contains('\x1b'), "help keeps its ANSI styling");
        }
        other => panic!("expected rendered help text, got {other:?}"),
    }
}

#[test]
fn help_streams_lines_so_grep_can_filter_them() {
    // `sort-by --help` has a `--reverse` line; grep keeps only it.
    let value = eval("sort-by --help | grep reverse").expect("eval");
    let text = match value {
        Value::Str(s) => s,
        Value::List(items) => {
            items.iter().map(|v| v.as_str().unwrap_or("")).collect::<Vec<_>>().join("\n")
        }
        other => panic!("unexpected: {other:?}"),
    };
    assert!(text.contains("reverse"), "no reverse line: {text:?}");
    assert!(!text.contains("Usage"), "did not filter to one line: {text:?}");
}

#[test]
fn the_consumer_seam_preserves_the_final_value() {
    // Routing the last stage through a pluggable consumer must not change what
    // a pipeline reports.
    let out = eval_fake("emit 5 | double").expect("eval");
    assert_eq!(out.into_iter().last(), Some(Value::Int(10)));
}

#[test]
fn bare_help_still_renders_as_one_block() {
    let (mut results, error) =
        eval_line(parse("sort-by --help"), &builtins(), &mut TestHost::new());
    assert!(error.is_none(), "{error:?}");
    // A bare --help stays one Rendered block (verbatim, styled), NOT a table of
    // lines.
    match results.pop() {
        Some(PipelineData::Rendered(s)) => {
            assert!(s.contains("Usage"), "help text missing: {s:?}");
            assert!(s.contains("reverse"), "flags missing: {s:?}");
        }
        other => panic!("expected one Rendered block, got {other:?}"),
    }
}

fn table_json() -> &'static str {
    r#"'[{"text":"Rust","href":"a"},{"text":"","href":"b"},{"text":"WASM","href":"c"}]'"#
}

#[test]
fn flagship_pipeline_works() {
    // `where` retired: the flagship filter is now a closure predicate.
    let v = eval(&format!(
        "echo {} | from json | filter {{|o| $o.text != ''}} | head 5",
        table_json()
    ))
    .expect("eval");
    match v {
        Value::List(rows) => {
            assert_eq!(rows.len(), 2);
        }
        other => panic!("expected table, got {other:?}"),
    }
}

#[test]
fn where_is_gone() {
    // Retired in favor of `filter` / `grep`; make sure it stays gone.
    let err = eval(r#"echo '[]' | from json | where n gt 4"#).expect_err("removed");
    assert!(err.msg.contains("unknown command `where`"), "{}", err.msg);
}

#[test]
fn get_extracts_column() {
    let v = eval(&format!("echo {} | from json | get text", table_json())).expect("eval");
    assert_eq!(
        v,
        Value::List(vec![
            Value::Str("Rust".into()),
            Value::Str("".into()),
            Value::Str("WASM".into())
        ])
    );
}

#[test]
fn get_missing_column_lists_available() {
    let err = eval(r#"echo '{"a":1}' | from json | get b"#).expect_err("missing");
    assert!(err.help.expect("help").contains("a"));
}

#[test]
fn sort_by_orders_and_reverses() {
    let v = eval(r#"echo '[{"n":5},{"n":1},{"n":10}]' | from json | sort-by n --reverse | get n"#)
        .expect("eval");
    assert_eq!(v, Value::List(vec![Value::Int(10), Value::Int(5), Value::Int(1)]));
}

#[test]
fn head_tail_without_n_return_single() {
    let v = eval(r#"echo '[1,2,3]' | from json | head"#).expect("eval");
    assert_eq!(v, Value::Int(1));
    let v = eval(r#"echo '[1,2,3]' | from json | tail"#).expect("eval");
    assert_eq!(v, Value::Int(3));
}

#[test]
fn str_case_on_input_and_args() {
    assert_eq!(eval("echo abc | str upcase").expect("eval"), Value::Str("ABC".into()));
    assert_eq!(eval("str downcase HI").expect("eval"), Value::Str("hi".into()));
}

#[test]
fn json_round_trip() {
    let v = eval(r#"echo '{"a":1}' | from json | to json"#).expect("eval");
    assert_eq!(v, Value::Str(r#"{"a":1}"#.into()));
}

#[test]
fn help_overview_is_a_table() {
    let v = eval("help").expect("eval");
    assert!(v.is_table());
}

#[test]
fn help_for_command_via_host() {
    let v = eval("help echo").expect("eval");
    assert_eq!(v, Value::Str("echo help text".into()));
}

#[test]
fn history_comes_from_host() {
    let v = eval("history").expect("eval");
    assert_eq!(
        v,
        Value::List(vec![Value::Str("echo 1".into()), Value::Str("help".into())])
    );
}

#[test]
fn echo_multiple_makes_list() {
    let v = eval("echo a b").expect("eval");
    assert_eq!(v, Value::List(vec![Value::Str("a".into()), Value::Str("b".into())]));
}

#[test]
fn sort_by_mixed_type_column_never_panics() {
    // Rows mixing ints and strings still have one total order.
    let mut rows = Vec::new();
    for i in 0..30 {
        if i % 3 == 0 {
            rows.push(format!("{{\"n\":\"s{:03}\"}}", (i * 37) % 1000));
        } else {
            rows.push(format!("{{\"n\":{}}}", (i * 251) % 1000));
        }
    }
    let json = format!("[{}]", rows.join(","));
    let v = eval(&format!("echo '{json}' | from json | sort-by n | get n")).expect("no panic");
    // Deterministic: all numbers first (sorted), then all strings.
    match v {
        Value::List(items) => {
            let first_str = items.iter().position(|x| matches!(x, Value::Str(_))).expect("has strings");
            assert!(items[..first_str].iter().all(|x| matches!(x, Value::Int(_))));
            assert!(items[first_str..].iter().all(|x| matches!(x, Value::Str(_))));
        }
        other => panic!("expected list, got {other:?}"),
    }
}

#[test]
fn sort_by_reverse_keeps_missing_last_and_is_stable() {
    let json = r#"[{"n":1,"tag":"a"},{"tag":"missing"},{"n":3,"tag":"b"},{"n":3,"tag":"c"}]"#;
    let v = eval(&format!("echo '{json}' | from json | sort-by n --reverse | get tag")).expect("eval");
    assert_eq!(
        v,
        Value::List(vec![
            Value::Str("b".into()), // 3 (first of the equal run — stable)
            Value::Str("c".into()), // 3
            Value::Str("a".into()), // 1
            Value::Str("missing".into()), // missing column stays last
        ])
    );
}

#[test]
fn head_with_huge_n_returns_everything() {
    // 2^32: on wasm32 an `as usize` cast truncated this to 0.
    let v = eval("echo '[1,2,3]' | from json | head 4294967296 | length").expect("eval");
    assert_eq!(v, Value::Int(3));
}

#[test]
fn to_json_refuses_non_finite() {
    let call = BoundCall {
        head_span: Span::new(0, 0),
        positionals: vec![],
        flags: Fields::new(),
        closures: vec![],
    };
    let nan = Value::Float(Float { bits: f64::NAN.to_bits() });
    match to_json(&call, nan, &Replies::new()) {
        Err(Stop::Fail(err)) => assert!(err.msg.contains("NaN")),
        other => panic!("NaN must not serialize: {other:?}"),
    }
}

#[test]
fn a_command_writes_diagnostics_to_the_context_sink() {
    let mut registry = CommandRegistry::new();
    registry
        .register_external(Signature::build("noisy", "writes to log and err"), NOISY)
        .expect("noisy");
    let mut host = TestHost::new();
    let out = parse("noisy");
    assert!(out.errors.is_empty(), "{:?}", out.errors);
    let (results, error) = eval_line(out, &registry, &mut host);
    assert!(error.is_none(), "{:?}", error);

    assert_eq!(host.sink.log_lines(), vec!["progress"]);
    assert_eq!(host.sink.err_lines(), vec!["warning"]);
    // Diagnostics must not leak into the data channel — that is the whole point
    // of having a separate sink.
    assert_eq!(last_value(results), Value::Int(1));
}

#[test]
fn subcommand_typo_gets_did_you_mean() {
    // Since `str` resolves as a group, the diagnostic can name it rather
    // than reporting the whole phrase as one unknown command.
    let err = eval("str upcsae hi").expect_err("typo");
    assert!(err.msg.contains("`str` has no subcommand `upcsae`"), "{}", err.msg);
    assert_eq!(err.help.as_deref(), Some("did you mean `str upcase`?"));
}

// --- grep (native host: substring dialect) ---

// --- batch-model note ---
//
// `stream::collect`'s N==1 rule ("exactly one item stays that value,
// unwrapped") is what makes a fully-collected *table* pipeline
// byte-identical. But it also means a
// stage's single surviving row is indistinguishable, on the inter-stage
// channel, from that stage having produced a bare scalar/record all
// along — a table that happens to have exactly one row collapses to its
// one row once a downstream collecting command reads it back. This is
// expected: anything that assumes its input is exactly one `List` value
// sees it.

#[test]
fn grep_filters_table_rows_across_all_columns() {
    // "Rust" appears in text; "webassembly.org" only in href — both hit.
    //
    // Only one row survives `grep Rust`, so it
    // arrives at `length` as a bare record, not a one-row table — see
    // the note above.
    let err = eval(&format!("echo {} | from json | grep Rust | length", table_json()))
        .expect_err("a singleton table collapses to a bare record downstream");
    assert!(err.msg.contains("expects a list or string"), "{}", err.msg);

    // Same collapse: `get` receives the lone surviving record directly
    // and returns its field as a scalar, not a one-element list.
    let v = eval(r#"echo '[{"t":"a","href":"x.org"},{"t":"b","href":"y.com"}]' | from json | grep .org | get t"#)
        .expect("eval");
    assert_eq!(v, Value::Str("a".into()));
}

#[test]
fn grep_ignore_case_and_invert() {
    let json = r#"'[{"n":"Rust"},{"n":"wasm"}]'"#;
    // `grep rust -i` leaves one row, which collapses
    // to a bare record before `length` sees it — see the note above.
    let err = eval(&format!("echo {json} | from json | grep rust -i | length"))
        .expect_err("singleton collapse");
    assert!(err.msg.contains("expects a list or string"), "{}", err.msg);

    // Same collapse: one row survives `-v`, so `get n` returns a scalar.
    let v = eval(&format!("echo {json} | from json | grep Rust -v | get n")).expect("eval");
    assert_eq!(v, Value::Str("wasm".into()));
}

#[test]
fn grep_on_restricts_the_search_but_keeps_whole_rows() {
    let json = r#"'[{"t":"rust","href":"a"},{"t":"b","href":"rust"}]'"#;
    // Unrestricted matches both rows; --on t matches only the first —
    // and the surviving row keeps every column, which is the whole point
    // of --on over piping through `get`.
    let v = eval(&format!("echo {json} | from json | grep rust | length")).expect("eval");
    assert_eq!(v, Value::Int(2));
    // --on t leaves exactly one row, which collapses
    // to a bare record before `get` sees it — see the note above.
    let v = eval(&format!("echo {json} | from json | grep rust --on t | get href"))
        .expect("eval");
    assert_eq!(v, Value::Str("a".into()));
}

#[test]
fn grep_on_unknown_column_now_yields_no_matches_not_an_error() {
    // Streaming `grep` never has the whole list — only one item at a time — so
    // there is no up-front scan for a `--on` typo. A missing field is `Null`,
    // which never matches: both rows are filtered, and the pipeline ends with
    // no value.
    let v = eval(r#"echo '[{"a":1},{"b":2}]' | from json | grep x --on nope"#)
        .expect("no longer errors");
    assert_eq!(v, Value::Null);
}

#[test]
fn on_is_rejected_by_commands_that_do_not_declare_it() {
    // The point of declaring `--on` per command rather than injecting it
    // everywhere: a meaningless use is an error, not a silent no-op.
    let err = eval("echo '[1,2]' | from json | length --on foo").expect_err("unknown flag");
    assert!(err.msg.contains("unknown flag"), "{}", err.msg);
}

#[test]
fn grep_on_dotted_path_reaches_nested_records() {
    let json = r#"'[{"u":{"name":"ada"}},{"u":{"name":"bob"}}]'"#;
    // Only the "ada" row matches, so it collapses to
    // a bare record before `length` sees it — see the note above.
    let err = eval(&format!("echo {json} | from json | grep ada --on u.name | length"))
        .expect_err("singleton collapse");
    assert!(err.msg.contains("expects a list or string"), "{}", err.msg);
}

#[test]
fn sort_by_on_is_shorthand_compatible() {
    let json = r#"'[{"n":3},{"n":1},{"n":2}]'"#;
    // Positional and --on forms agree.
    let a = eval(&format!("echo {json} | from json | sort-by n | get n")).expect("eval");
    let b = eval(&format!("echo {json} | from json | sort-by --on n | get n")).expect("eval");
    assert_eq!(a, b);
    assert_eq!(a, Value::List(vec![Value::Int(1), Value::Int(2), Value::Int(3)]));
}

#[test]
fn sort_by_without_column_or_on_explains_itself() {
    let err = eval(r#"echo '[{"n":1}]' | from json | sort-by"#).expect_err("needs a key");
    assert!(err.msg.contains("needs a column or `--on`"), "{}", err.msg);
    assert!(err.help.expect("help").contains("--on"));
}

#[test]
fn map_projects_a_field_and_a_dotted_path() {
    let json = r#"'[{"u":{"name":"ada"},"id":1},{"u":{"name":"bob"},"id":2}]'"#;
    let v = eval(&format!("echo {json} | from json | map u.name")).expect("eval");
    assert_eq!(
        v,
        Value::List(vec![Value::Str("ada".into()), Value::Str("bob".into())])
    );
    let v = eval(&format!("echo {json} | from json | map id")).expect("eval");
    assert_eq!(v, Value::List(vec![Value::Int(1), Value::Int(2)]));
}

#[test]
fn map_unknown_field_now_yields_nulls_not_an_error() {
    // Streaming `map` never sees the whole list — only one item at a time — so
    // a field-name typo projects to `null`s instead of failing.
    let v = eval(r#"echo '[{"a":1},{"a":2}]' | from json | map nope"#).expect("no longer errors");
    assert_eq!(v, Value::List(vec![Value::Null, Value::Null]));
}

#[test]
fn inline_functions_need_a_js_host_natively() {
    // The native test host has no scripting engine; the error must say
    // so rather than mangling the source into a field name.
    let err = eval(r#"echo '[{"a":1}]' | from json | map '(o) => o.a'"#)
        .expect_err("no js host");
    assert!(err.msg.contains("JavaScript host"), "{}", err.msg);
}

#[test]
fn grep_no_longer_splits_lines_of_a_string() {
    // A `Str` item is one item on the channel, not something `grep` splits into
    // lines itself. A multi-line string is matched or dropped as a single whole
    // value.
    let v = eval(r#"echo "alpha\nbeta\ngamma" | grep a"#).expect("eval");
    assert_eq!(v, Value::Str("alpha\nbeta\ngamma".into()));
    let v = eval(r#"echo "alpha\nbeta" | grep bet"#).expect("eval");
    assert_eq!(v, Value::Str("alpha\nbeta".into()));
    // No line contains "zzz" anywhere in the whole string -> filtered.
    let v = eval(r#"echo "alpha\nbeta" | grep zzz"#).expect("eval");
    assert_eq!(v, Value::Null);
}

#[test]
fn grep_no_matches_yields_empty_list() {
    // Two rows, not one, so the *source* survives the channel as a real
    // list (see the batch-model note above) and it is genuinely `grep`
    // that empties it. An emptied stream collects back as an empty
    // `List`, not `Empty` — only the pipeline's terminal boundary treats
    // zero items as "no value" — so `length` sees `[]` and correctly
    // returns 0.
    let v = eval(r#"echo '[{"a":"x"},{"a":"y"}]' | from json | grep zzz | length"#)
        .expect("eval");
    assert_eq!(v, Value::Int(0));
}

#[test]
fn grep_scalar_list_and_no_longer_type_errors_on_a_bare_scalar() {
    // Only "two" matches, so it is the pipeline's
    // terminal value directly, not a one-element list — see the note
    // above.
    let v = eval(r#"echo '["one","two"]' | from json | grep tw"#).expect("eval");
    assert_eq!(v, Value::Str("two".into()));

    // Per item, grep cannot tell a lone scalar `Int` apart from that same `Int`
    // arriving as one row of a list of ints, so a bare scalar is tested the
    // same way; one that doesn't match is filtered out, not a type error.
    let v = eval("echo 5 | grep x").expect("no longer a type error");
    assert_eq!(v, Value::Null);
}

#[test]
fn grep_composes_with_the_rest_of_the_pipeline() {
    // Two rows match "wasm", not one, so `grep`'s result survives the
    // channel to `head` as a real list rather than collapsing to a bare
    // record first (see the batch-model note above) — this test is
    // about composition with `head`/`get`, not about the row count.
    let json = r#"'[{"text":"Wasm1","href":"a"},{"text":"Wasm2","href":"b"},{"text":"Rust","href":"c"}]'"#;
    let v = eval(&format!("echo {json} | from json | grep -i wasm | head 1 | get text")).expect("eval");
    assert_eq!(v, Value::Str("Wasm1".into()));
}

// --- native closures: no host engine involved ---
//
// The whole point of these tests is the host used by `eval()` has *no*
// scripting engine (`compile_fn` errors). Everything below therefore
// proves closures work identically in the CLI and the browser.

#[test]
fn closure_filters_without_any_host_engine() {
    let json = r#"'[{"id":1},{"id":7},{"id":9}]'"#;
    let v = eval(&format!("echo {json} | from json | filter {{|o| $o.id > 5}} | length"))
        .expect("eval");
    assert_eq!(v, Value::Int(2));
}

#[test]
fn closure_maps_and_computes() {
    let json = r#"'[{"a":1,"b":2},{"a":10,"b":20}]'"#;
    let v = eval(&format!("echo {json} | from json | map {{|o| $o.a + $o.b}}")).expect("eval");
    assert_eq!(v, Value::List(vec![Value::Int(3), Value::Int(30)]));
}

#[test]
fn closure_works_as_on_selector_keeping_whole_rows() {
    let json = r#"'[{"t":"rust","n":1},{"t":"wasm","n":2}]'"#;
    // Match on a computed value but keep every column.
    // `str upcase` isn't an expression — a clean parse error, not a panic.
    let v = eval_any(&format!(
        "echo {json} | from json | grep RUST --on {{|o| str upcase}} | length"
    ));
    assert!(v.is_err());

    // Only the "rust" row matches, so it collapses
    // to a bare record before `get` sees it, returning a scalar rather
    // than a one-element list — see the batch-model note above
    // `grep_filters_table_rows_across_all_columns`.
    let v = eval(&format!("echo {json} | from json | grep rust --on {{|o| $o.t}} | get n"))
        .expect("eval");
    assert_eq!(v, Value::Int(1));
}

#[test]
fn closure_computes_a_sort_key() {
    let json = r#"'[{"a":1,"b":9},{"a":5,"b":1}]'"#;
    // Sort by a sum that exists in no column.
    let v = eval(&format!(
        "echo {json} | from json | sort-by --on {{|o| $o.a + $o.b}} | map a"
    ))
    .expect("eval");
    assert_eq!(v, Value::List(vec![Value::Int(5), Value::Int(1)]));
}

#[test]
fn closure_string_predicate_and_logical_ops() {
    let json = r#"'[{"t":"rust","n":1},{"t":"wasm","n":9}]'"#;
    let v = eval(&format!(
        "echo {json} | from json | filter {{|o| $o.t == 'rust' || $o.n > 5}} | length"
    ))
    .expect("eval");
    assert_eq!(v, Value::Int(2));
}

#[test]
fn closure_errors_are_spanned_not_panics() {
    // Unknown variable inside a closure body.
    let err = eval(r#"echo '[{"a":1}]' | from json | map {|o| $nope.a}"#)
        .expect_err("unknown var");
    assert!(err.msg.contains("unknown variable"), "{}", err.msg);
}

#[test]
fn malformed_closures_report_clearly() {
    assert!(eval_any("echo 1 | map {|o| $o.a").is_err(), "unterminated closure");
    assert!(eval_any("echo 1 | map {$o}").is_err(), "missing parameters");
}

#[test]
fn a_group_name_lists_its_subcommands() {
    // `mux` is not a command; before groups existed it was an unknown
    // command whose did-you-mean pointed at `map`.
    let out = eval("mux").expect("group help");
    let text = match out {
        Value::Str(s) => s,
        other => panic!("expected rendered help, got {other:?}"),
    };
    assert!(text.contains("`mux` is a command group"), "{text}");
    assert!(text.contains("mux split"), "{text}");
    assert!(text.contains("Split the active pane"), "{text}");
    // Groups nest: `mux window` is itself a group.
    assert!(eval("mux window").is_ok(), "nested group");
    // And --help on a group is the same page, not an arity error.
    assert_eq!(eval("mux --help").expect("group --help"), Value::Str(text));
}

#[test]
fn unknown_subcommand_suggests_a_sibling_not_a_stranger() {
    let err = eval("mux windo").expect_err("bad subcommand");
    assert!(err.msg.contains("`mux` has no subcommand `windo`"), "{}", err.msg);
    assert_eq!(err.help.as_deref(), Some("did you mean `mux window`?"));

    // Nothing close: point at the group listing rather than guess.
    let err = eval("str frobnicate").expect_err("bad subcommand");
    assert_eq!(err.help.as_deref(), Some("run `str` to list its subcommands"));
}

#[test]
fn a_real_command_wins_over_the_group_page() {
    // `to json` exists and `to` is a group; resolving the command must
    // still take priority over listing.
    assert_eq!(eval("echo 1 | to json").expect("eval"), Value::Str("1".into()));
}

#[test]
fn quoted_true_stays_string_bareword_true_is_bool() {
    assert_eq!(eval("echo 'true'").expect("eval"), Value::Str("true".into()));
    assert_eq!(eval("echo true").expect("eval"), Value::Bool(true));
}

/// A registry with `counter`, which emits ints 1.. forever. A downstream `head`
/// closing the channel is what stops it.
fn with_counter() -> CommandRegistry {
    let mut registry = builtins();
    registry.register_external(Signature::build("counter", "emits forever"), ENDLESS).expect("new");
    registry
}

#[test]
fn head_terminates_an_infinite_producer() {
    let mut host = TestHost::new();
    let out = parse("counter | head 3");
    assert!(out.errors.is_empty(), "{:?}", out.errors);
    let (results, error) = eval_line(out, &with_counter(), &mut host);
    assert!(error.is_none(), "{:?}", error);
    assert_eq!(
        last_value(results),
        Value::List(vec![Value::Int(1), Value::Int(2), Value::Int(3)])
    );
    // The producer must have stopped, not run away. It may get a bufferful
    // ahead, but it must be bounded and must have observed the close.
    assert!(host.counted >= 3, "produced too few: {}", host.counted);
    assert!(host.counted < 1000, "producer did not stop: {}", host.counted);
}

#[test]
fn filter_between_source_and_head_does_not_collect() {
    let mut host = TestHost::new();
    // Keep evens, take 3 -> 2,4,6. If filter collected, this hangs.
    let out = parse("counter | filter {|n| $n % 2 == 0} | head 3");
    assert!(out.errors.is_empty(), "{:?}", out.errors);
    let (results, error) = eval_line(out, &with_counter(), &mut host);
    assert!(error.is_none(), "{:?}", error);
    assert_eq!(
        last_value(results),
        Value::List(vec![Value::Int(2), Value::Int(4), Value::Int(6)])
    );
    assert!(host.counted < 1000, "producer did not stop: {}", host.counted);
}
