//! The programmatic surface: runs in flight, host commands, variables by layer,
//! registered functions and host values.

use bterm::abort::{AbortHandle, Abortable, Aborted};
use bterm::ask::Replies;
use bterm::builtins::register_all;
use bterm::convert::{js_to_value, HostValue};
use bterm::engine::Engine;
use bterm::error::{ShellError, Span};
use bterm::eval::Turn;
use bterm::execute::{begin_line, final_value, record_line, Begun};
use bterm::expr::Scope;
use bterm::float::Float;
use bterm::host::{
    check_command_name, fn_label_text, no_eval_text, rejection_text, settle_call, var_target,
    FnTable, VarOptions, VarTarget,
};
use bterm::pipeline::Stage;
use bterm::protocol::EngineEvent;
use bterm::registry::{CommandRegistry, PipelineData, RegisterOutcome, VarOrigin};
use bterm::script::{
    js_error_to_shell, mode_named, Returned, ScriptAction, ScriptEvent, ScriptRun, Thrown,
    WriterCall, Writers,
};
use bterm::outbuf::Mode;
use bterm::signature::Signature;
use bterm::sink::{Channel, Record};
use bterm::tasks::{Task, Tasks};
use bterm::value::Value;

fn float(f: f64) -> Float {
    Float { bits: f.to_bits() }
}

fn text(s: &str) -> Value {
    Value::Str(s.to_string())
}

// --- aborting ---

fn builtins() -> CommandRegistry {
    let mut registry = CommandRegistry::new();
    register_all(&mut registry);
    registry
}

fn begun(line: &str, tasks: &mut Tasks) -> (Abortable, AbortHandle) {
    match begin_line(line, &Replies::new()) {
        Ok(Begun::Running(run)) => Abortable::wrap(run, Scope::new(), 80, tasks),
        _ => panic!("`{line}` should begin"),
    }
}

fn advance(
    run: &mut Abortable,
    tasks: &Tasks,
    registry: &CommandRegistry,
) -> Result<Turn, Aborted> {
    run.advance(tasks, registry, &Replies::new())
}

#[test]
fn completes_normally_when_not_aborted() {
    let registry = builtins();
    let mut tasks = Tasks::new();
    let (mut run, handle) = begun("echo 7", &mut tasks);
    loop {
        match advance(&mut run, &tasks, &registry) {
            Ok(Turn::Moved) => {}
            Ok(Turn::Complete) => run.inner.record_collected(),
            Ok(Turn::Over) => break,
            _ => panic!("expected the line to run"),
        }
    }
    assert_eq!(final_value(run.inner.results, run.inner.error), Ok(Value::Int(7)));
    assert!(!handle.is_aborted(&tasks));
}

#[test]
fn every_copy_of_a_handle_sees_the_abort() {
    let registry = builtins();
    let mut tasks = Tasks::new();
    let (mut run, handle) = begun("echo 7", &mut tasks);
    let (mut other, spared) = begun("echo 8", &mut tasks);
    let copy = handle.clone();
    assert!(!copy.is_aborted(&tasks));
    handle.abort(&mut tasks);
    assert!(handle.is_aborted(&tasks) && copy.is_aborted(&tasks));
    copy.abort(&mut tasks);
    assert_eq!(tasks.aborted.len(), 1, "aborting again changes nothing");
    assert!(matches!(advance(&mut run, &tasks, &registry), Err(Aborted)));
    assert!(!spared.is_aborted(&tasks));
    assert!(advance(&mut other, &tasks, &registry).is_ok());
}

#[test]
fn ctrl_c_stops_the_runs_of_its_pane() {
    let registry = builtins();
    let mut tasks = Tasks::new();
    let (mut run, handle) = begun("echo 7", &mut tasks);
    let (mut other, spared) = begun("echo 8", &mut tasks);
    tasks.register(handle.run_id, 1);
    tasks.register(spared.run_id, 2);
    tasks.abort_pane(1);
    assert!(matches!(advance(&mut run, &tasks, &registry), Err(Aborted)));
    assert!(advance(&mut other, &tasks, &registry).is_ok());
    tasks.abort_all();
    assert!(matches!(advance(&mut other, &tasks, &registry), Err(Aborted)));
}

#[test]
fn abort_before_poll_never_runs_body() {
    let registry = builtins();
    let mut tasks = Tasks::new();
    let (mut run, handle) = begun("echo 7", &mut tasks);
    handle.abort(&mut tasks);
    assert!(matches!(advance(&mut run, &tasks, &registry), Err(Aborted)), "expected aborted");
    assert!(
        matches!(&run.inner.run.stages[0], Stage::Waiting(_)),
        "an aborted run must not run"
    );
}

#[test]
fn abort_mid_pending_settles_aborted() {
    let mut registry = builtins();
    registry.register_external(Signature::build("slow", "pends"), 1).expect("a free name");
    let mut tasks = Tasks::new();
    let (mut run, handle) = begun("slow", &mut tasks);
    assert!(matches!(advance(&mut run, &tasks, &registry), Ok(Turn::Moved | Turn::Waiting)));
    handle.abort(&mut tasks);
    assert!(handle.is_aborted(&tasks));
    assert!(
        matches!(advance(&mut run, &tasks, &registry), Err(Aborted)),
        "expected aborted after the flag was raised"
    );
    assert!(matches!(&run.inner.run.stages[0], Stage::Outside(1, _)));
}

// --- runs in flight ---

#[test]
fn run_ids_are_never_given_out_twice() {
    let mut tasks = Tasks::new();
    assert_eq!(tasks.next_id(), 1);
    assert_eq!(tasks.next_id(), 2);
    tasks.register(1, 0);
    tasks.finish(1);
    assert_eq!(tasks.next_id(), 3);
}

#[test]
fn ctrl_c_aborts_the_runs_of_one_pane() {
    let mut tasks = Tasks::new();
    tasks.register(1, 7);
    tasks.register(2, 8);
    tasks.register(3, 7);
    tasks.set_probe_timeout(3, 55);
    let victims = tasks.abort_pane(7);
    assert_eq!(
        victims,
        vec![
            Task { run_id: 1, pane: 7, probe_timeout: None },
            Task { run_id: 3, pane: 7, probe_timeout: Some(55) },
        ]
    );
    assert!(!tasks.pane_busy(7));
    assert!(tasks.pane_busy(8));
    assert!(tasks.abort_pane(7).is_empty(), "a second abort finds nothing");
    assert_eq!(tasks.abort_panes(&vec![9, 8]).len(), 1);
    assert!(!tasks.is_active(2));
}

#[test]
fn a_finished_run_hands_back_its_timer_once() {
    let mut tasks = Tasks::new();
    tasks.register(4, 0);
    tasks.set_probe_timeout(4, 99);
    assert_eq!(tasks.finish(4), Some(99));
    assert_eq!(tasks.finish(4), None);
    // Arming a timer for a run that is gone does not bring it back.
    tasks.set_probe_timeout(4, 100);
    assert!(!tasks.is_active(4));
    tasks.register(5, 1);
    tasks.register(5, 2);
    assert!(!tasks.pane_busy(1), "a run id stands for one run");
    assert_eq!(tasks.abort_all().len(), 1);
    assert!(!tasks.is_active(5));
}

// --- host commands ---

fn span() -> Span {
    Span::new(2, 6)
}

fn script() -> ScriptRun {
    ScriptRun::new("links".to_string(), span())
}

fn sent(action: Option<ScriptAction>) -> Value {
    match action {
        Some(ScriptAction::Send(d)) => d.into_value(),
        _ => panic!("expected an item to send"),
    }
}

fn finished(action: Option<ScriptAction>) -> Option<ShellError> {
    match action {
        Some(ScriptAction::Finish(e)) => e,
        _ => panic!("expected the end"),
    }
}

#[test]
fn a_plain_result_is_flattened_and_sent() {
    let mut run = script();
    let one = PipelineData::Value(Value::Int(1));
    assert!(matches!(run.step(ScriptEvent::Took(one)), Some(ScriptAction::Receive)));
    match run.step(ScriptEvent::InputEnded) {
        Some(ScriptAction::Call(v)) => assert_eq!(v, Value::Int(1), "one item is not wrapped"),
        _ => panic!("expected the call"),
    }
    let list = Value::List(vec![text("a"), text("b")]);
    assert_eq!(sent(run.step(ScriptEvent::Answered(Returned::Plain(Ok(list))))), text("a"));
    assert_eq!(sent(run.step(ScriptEvent::Sent)), text("b"));
    assert!(finished(run.step(ScriptEvent::Sent)).is_none());
    assert!(run.step(ScriptEvent::Sent).is_none(), "over is over");
}

#[test]
fn an_undefined_result_sends_nothing() {
    let mut run = script();
    match run.step(ScriptEvent::InputEnded) {
        Some(ScriptAction::Call(v)) => assert_eq!(v, Value::Null, "no input is null"),
        _ => panic!("expected the call"),
    }
    assert!(finished(run.step(ScriptEvent::Answered(Returned::Undefined))).is_none());
}

#[test]
fn a_closed_channel_stops_the_iterator() {
    let mut run = script();
    run.step(ScriptEvent::InputEnded);
    assert!(matches!(
        run.step(ScriptEvent::Answered(Returned::Iterable)),
        Some(ScriptAction::Pull)
    ));
    assert_eq!(sent(run.step(ScriptEvent::Yielded(Ok(Value::Int(1))))), Value::Int(1));
    assert!(matches!(run.step(ScriptEvent::Sent), Some(ScriptAction::Rest)));
    assert!(matches!(run.step(ScriptEvent::Resumed), Some(ScriptAction::Pull)));
    assert_eq!(sent(run.step(ScriptEvent::Yielded(Ok(Value::Int(2))))), Value::Int(2));
    assert!(matches!(run.step(ScriptEvent::Sent), Some(ScriptAction::Rest)));
    assert!(matches!(run.step(ScriptEvent::Closed), Some(ScriptAction::Stop)));
    assert!(finished(run.step(ScriptEvent::Stopped)).is_none());
}

#[test]
fn a_refused_send_stops_the_iterator_too() {
    let mut run = script();
    run.step(ScriptEvent::InputEnded);
    run.step(ScriptEvent::Answered(Returned::Iterable));
    run.step(ScriptEvent::Yielded(Ok(Value::Int(1))));
    assert!(matches!(run.step(ScriptEvent::Closed), Some(ScriptAction::Stop)));
    assert!(finished(run.step(ScriptEvent::Stopped)).is_none());

    let mut run = script();
    run.step(ScriptEvent::InputEnded);
    run.step(ScriptEvent::Answered(Returned::Iterable));
    assert!(finished(run.step(ScriptEvent::Exhausted)).is_none());
}

#[test]
fn a_thrown_error_ends_the_stage_under_its_name() {
    let mut run = script();
    run.step(ScriptEvent::InputEnded);
    let thrown = Thrown {
        message: Some("offline".to_string()),
        help: Some("try later".to_string()),
        text: None,
    };
    let e = finished(run.step(ScriptEvent::Threw(thrown))).expect("an error");
    assert_eq!(e.msg, "`links`: offline");
    assert_eq!(e.help.as_deref(), Some("try later"));
    assert_eq!(e.span, Some(span()));

    let mut run = script();
    run.step(ScriptEvent::InputEnded);
    let bad = Err("cannot convert a JS symbol into a shell value".to_string());
    let e = finished(run.step(ScriptEvent::Answered(Returned::Plain(bad)))).expect("an error");
    assert_eq!(e.msg, "`links`: cannot convert a JS symbol into a shell value");
}

#[test]
fn a_thrown_value_without_a_message_shows_as_text() {
    let plain = Thrown { message: None, help: None, text: Some("42".to_string()) };
    assert_eq!(js_error_to_shell(&plain, span(), "x").msg, "`x`: 42");
    let nothing = Thrown { message: None, help: None, text: None };
    assert_eq!(js_error_to_shell(&nothing, span(), "x").msg, "`x`: unknown error");
}

#[test]
fn writers_buffer_raw_text_and_pass_messages() {
    let mut w = Writers::new();
    let line = w.call(Channel::Log, WriterCall::Line("\x1b[2Jhi\nthere".to_string())).expect("out");
    assert_eq!(line.text(), "hi there");
    assert!(!line.is_raw());
    assert!(w.call(Channel::Log, WriterCall::Write("50%\r".to_string())).is_none());
    let out = w.call(Channel::Log, WriterCall::Flush).expect("flushed");
    assert_eq!((out.text(), out.is_raw()), ("50%\r", true));
    assert!(w.call(Channel::Error, WriterCall::Mode("byte".to_string(), None)).is_none());
    let out = w.call(Channel::Error, WriterCall::Write("!".to_string())).expect("byte mode");
    assert_eq!((out.text(), out.channel()), ("!", Channel::Error));
    w.call(Channel::Log, WriterCall::Mode("line".to_string(), Some("|".to_string())));
    let out = w.call(Channel::Log, WriterCall::Write("a|b".to_string())).expect("a new delimiter");
    assert_eq!(out.text(), "a|");
    w.call(Channel::Error, WriterCall::Mode("block".to_string(), None));
    w.call(Channel::Error, WriterCall::Write("tail".to_string()));
    let tails = w.finish();
    let texts: Vec<&str> = tails.iter().map(|r| r.text()).collect();
    assert_eq!(texts, vec!["b", "tail"]);
    assert!(w.finish().is_empty(), "nothing is drained twice");
    assert_eq!(mode_named("block"), Mode::Block);
    assert_eq!(mode_named("anything"), Mode::Line);
}

#[test]
fn records_are_styled_around_clean_text() {
    assert_eq!(record_line(&Record::log("a")), "a\n");
    assert_eq!(record_line(&Record::err("b")), "\x1b[31mb\x1b[0m\n");
    assert_eq!(record_line(&Record::raw_err("c")), "c");
}

// --- host values ---

#[test]
fn integral_numbers_become_ints_up_to_two_to_the_53() {
    let one = HostValue::Number(float(1.0), Some(1));
    assert_eq!(js_to_value(&one), Ok(Value::Int(1)));
    let half = HostValue::Number(float(0.5), None);
    assert_eq!(js_to_value(&half), Ok(Value::Float(float(0.5))));
    let edge = HostValue::Number(float(9007199254740992.0), Some(9007199254740992));
    assert_eq!(js_to_value(&edge), Ok(Value::Int(9007199254740992)));
    let past = HostValue::Number(float(9007199254740994.0), Some(9007199254740994));
    assert_eq!(js_to_value(&past), Ok(Value::Float(float(9007199254740994.0))));
}

#[test]
fn objects_and_arrays_convert_deeply_or_not_at_all() {
    let v = HostValue::Object(vec![
        ("a".to_string(), HostValue::List(vec![HostValue::Nothing, HostValue::Bool(true)])),
        ("b".to_string(), HostValue::Text("x".to_string())),
        ("c".to_string(), HostValue::Bytes(vec![0, 255])),
    ]);
    let expected = Value::record(vec![
        ("a".to_string(), Value::List(vec![Value::Null, Value::Bool(true)])),
        ("b".to_string(), text("x")),
        ("c".to_string(), Value::Bytes(vec![0, 255])),
    ]);
    assert_eq!(js_to_value(&v), Ok(expected));
    let bad = HostValue::List(vec![
        HostValue::Bool(true),
        HostValue::Other("function".to_string()),
        HostValue::Other("symbol".to_string()),
    ]);
    assert_eq!(
        js_to_value(&bad),
        Err("cannot convert a JS function into a shell value".to_string())
    );
}

// --- variables by layer ---

fn options(scope: Option<&str>, session: Option<u32>) -> Option<VarOptions> {
    Some(VarOptions { scope: scope.map(|s| s.to_string()), session })
}

#[test]
fn an_unknown_scope_is_an_error_rather_than_the_host() {
    assert_eq!(var_target(&None), Ok(VarTarget::Host));
    assert_eq!(var_target(&options(None, Some(3))), Ok(VarTarget::Host));
    assert_eq!(var_target(&options(Some("host"), None)), Ok(VarTarget::Host));
    assert_eq!(var_target(&options(Some("session"), Some(3))), Ok(VarTarget::Session(3)));
    assert_eq!(
        var_target(&options(Some("session"), None)),
        Err("{ scope: 'session' } needs a `session` id from snapshot.sessions".to_string())
    );
    assert_eq!(
        var_target(&options(Some("sesion"), Some(3))),
        Err("unknown scope `sesion`: expected 'host' or 'session'".to_string())
    );
}

#[test]
fn set_variables_applies_all_or_nothing() {
    let mut e = Engine::new();
    e.set_variable("keep", Value::Int(1), VarTarget::Host).expect("valid");
    let bad_name = vec![
        ("a".to_string(), Ok(Value::Int(1))),
        ("b c".to_string(), Ok(Value::Int(2))),
    ];
    let err = e.set_variables(&bad_name, VarTarget::Host).expect_err("a bad name");
    assert_eq!(err, "`b c` is not a valid variable name: use letters, digits and `_`");
    let bad_value = vec![
        ("a".to_string(), Ok(Value::Int(1))),
        ("f".to_string(), Err("cannot convert a JS function into a shell value".to_string())),
    ];
    let err = e.set_variables(&bad_value, VarTarget::Host).expect_err("a bad value");
    assert_eq!(err, "`f`: cannot convert a JS function into a shell value");
    let good = vec![
        ("a".to_string(), Ok(Value::Int(1))),
        ("a".to_string(), Ok(Value::Int(2))),
        ("z".to_string(), Ok(Value::Null)),
    ];
    let err = e.set_variables(&good, VarTarget::Session(9999)).expect_err("no session");
    assert_eq!(err, "no session with id 9999");
    assert_eq!(e.host_vars().len(), 1, "nothing landed so far");

    e.set_variables(&good, VarTarget::Host).expect("all of it");
    let pairs = e.variables(VarTarget::Host).expect("the host layer");
    let names: Vec<&str> = pairs.iter().map(|(k, _)| k.as_str()).collect();
    assert_eq!(names, vec!["a", "keep", "z"], "sorted by name");
    assert_eq!(e.get_variable("a", VarTarget::Host), Ok(Some(&Value::Int(2))));
}

#[test]
fn a_read_names_one_layer() {
    let mut e = Engine::new();
    let session = VarTarget::Session(e.mux.active_session);
    e.set_variable("x", text("host"), VarTarget::Host).expect("valid");
    e.set_variable("x", text("session"), session).expect("valid");
    assert_eq!(e.get_variable("x", VarTarget::Host), Ok(Some(&text("host"))));
    assert_eq!(e.get_variable("x", session), Ok(Some(&text("session"))));
    let shown = e.visible_vars(e.mux.active_pane());
    assert_eq!(shown.len(), 1);
    assert_eq!((shown[0].origin, &shown[0].value), (VarOrigin::Session, &text("session")));
    assert!(e.unset_variable("x", session));
    assert!(!e.unset_variable("x", session));
    assert!(!e.unset_variable("x", VarTarget::Session(77)), "no such session");
    assert_eq!(e.get_variable("x", session), Ok(None));
    assert!(e.get_variable("x", VarTarget::Session(77)).is_err());
    assert!(e.variables(VarTarget::Session(77)).is_err());
}

// --- registered functions and commands ---

#[test]
fn functions_are_registered_by_bare_name() {
    let mut fns = FnTable::new();
    assert_eq!(fns.register("  ", 1), Err("function name must not be empty".to_string()));
    assert_eq!(
        fns.register("@slug", 1),
        Err("register the bare name; `@` is only used at the call site".to_string())
    );
    assert_eq!(
        fns.lookup("slug"),
        Err("no registered function `@slug`; register one with bt.registerFn(name, fn)".to_string())
    );
    fns.register("slug", 1).expect("a good name");
    fns.register("double", 2).expect("a good name");
    fns.register("slug", 3).expect("replacing is allowed");
    assert_eq!(fns.lookup("slug"), Ok(3));
    assert_eq!(
        fns.lookup("slgu"),
        Err("no registered function `@slgu` — did you mean `@slug`?".to_string())
    );
    assert_eq!(
        fns.lookup("zzzzzzzz"),
        Err("no registered function `@zzzzzzzz`; registered: slug, double".to_string())
    );
    fns.unregister("slug");
    assert!(fns.lookup("slug").is_err());
    fns.clear();
    assert!(fns.lookup("double").is_err());
}

#[test]
fn builtins_cannot_be_replaced_or_removed() {
    let mut registry = builtins();
    let err = registry
        .register_external(Signature::build("echo", "mine"), 1)
        .expect_err("a built-in command");
    assert!(err.msg.contains("echo"), "{}", err.msg);
    assert!(!registry.unregister_external("echo"));
    let added = registry.register_external(Signature::build("links", "mine"), 1);
    assert!(matches!(added, Ok(RegisterOutcome::Added)));
    let again = registry.register_external(Signature::build("links", "mine"), 2);
    assert!(matches!(again, Ok(RegisterOutcome::Replaced)));
    assert!(registry.unregister_external("links"));
    assert!(registry.get("links").is_none());
    assert_eq!(check_command_name(" \t"), Some("command name must not be empty".to_string()));
    assert_eq!(check_command_name("links"), None);
}

#[test]
fn a_rejection_carries_the_help() {
    let e = ShellError::runtime("no such page").with_help("check the address");
    assert_eq!(rejection_text(&e), "no such page (check the address)");
    assert_eq!(rejection_text(&ShellError::runtime("boom")), "boom");
    assert_eq!(final_value(vec![], None), Ok(Value::Null));
    assert_eq!(final_value(vec![], Some(ShellError::runtime("boom"))).expect_err("it").msg, "boom");
}

#[test]
fn a_new_terminal_greets_and_prompts() {
    let mut e = Engine::new();
    e.greet(&Replies::new()).expect("one pane needs no arithmetic");
    let events = e.drain_events();
    assert_eq!(events.len(), 3);
    match (&events[0], &events[1], &events[2]) {
        (
            EngineEvent::PaneOutput { data: banner, .. },
            EngineEvent::PaneOutput { data: prompt, .. },
            EngineEvent::LayoutChanged { snapshot },
        ) => {
            assert!(banner.contains("browser-terminal"));
            assert!(prompt.contains('❯'));
            assert_eq!(snapshot.panes.len(), 1);
        }
        other => panic!("unexpected events: {other:?}"),
    }
    let pane = e.mux.active_pane();
    e.set_running(pane, true);
    assert!(e.mux.pane(pane).expect("pane").running);
    e.rest_pane(pane, false);
    assert!(!e.mux.pane(pane).expect("pane").running);
    assert!(e.prompt_line(pane).contains("31m"), "the prompt shows the failure");
}

#[test]
fn an_error_inside_a_character_has_no_column() {
    let e = ShellError::parse("bad", Span::new(1, 2));
    assert!(e.is_drawable("ab"));
    assert!(!e.is_drawable("é"), "byte 1 is inside the character");
    assert!(e.is_drawable(""), "past the end is the end");
}

#[test]
fn calls_of_host_functions_name_the_function() {
    let label = fn_label_text("total", true);
    assert_eq!(label, "`@total`");
    assert_eq!(fn_label_text("x => x", false), "`x => x`");
    assert_eq!(settle_call(&label, None, Ok(Value::Int(3))), Ok(Value::Int(3)));
    assert_eq!(
        settle_call(&label, None, Err("no such value".to_string())),
        Err("`@total`: no such value".to_string())
    );
    assert_eq!(
        settle_call(&label, Some("boom".to_string()), Ok(Value::Int(3))),
        Err("`@total` threw: boom".to_string())
    );
    assert!(no_eval_text("x => x").contains("bt.registerFn('name', x => x) — and use `@name`"));
}

#[test]
fn a_name_is_registered_once_and_gone_when_unregistered() {
    let mut fns = FnTable::new();
    fns.register("twice", 1).expect("a plain name");
    fns.register("other", 2).expect("a plain name");
    fns.register("twice", 3).expect("a plain name");
    assert_eq!(fns.lookup("twice"), Ok(3));
    fns.unregister("twice");
    assert!(fns.lookup("twice").is_err());
    assert_eq!(fns.lookup("other"), Ok(2));
}

#[test]
fn a_run_is_listed_once() {
    let mut tasks = Tasks::new();
    let id = tasks.next_id();
    tasks.register(id, 1);
    tasks.set_probe_timeout(id, 5);
    tasks.register(id, 2);
    assert!(!tasks.pane_busy(1));
    assert_eq!(tasks.finish(id), None, "the entry was replaced, timer and all");
    assert!(!tasks.is_active(id));
}
