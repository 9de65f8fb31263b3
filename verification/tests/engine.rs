//! The engine: panes, lines, the multiplexer protocol and variables.

use bterm::abort::Abortable;
use bterm::ask::{FloatOp, Query, Replies, Reply, Stop};
use bterm::callable::{refuse_lookup, FnCompiler, NoFnCompiler};
use bterm::chan::{Received, Sent};
use bterm::engine::{Engine, MsgResult};
use bterm::error::{ErrorKind, ShellError};
use bterm::eval::Turn;
use bterm::execute::{begin_line, final_value, Begun, ProbeStep};
use bterm::float::Float;
use bterm::matcher::{Pattern, PatternMatcher, SubstringMatcher};
use bterm::mux::share::Share;
use bterm::pipeline::Stage;
use bterm::progress::ProgressiveConsumer;
use bterm::protocol::{EngineEvent, HostMsg, LayoutSnapshot};
use bterm::registry::{MuxAction, PipelineData};
use bterm::signature::Signature;
use bterm::sink::Record;
use bterm::tasks::Tasks;
use bterm::value::Value;

fn float(f: f64) -> Float {
    Float { bits: f.to_bits() }
}

fn number(f: Float) -> f64 {
    f64::from_bits(f.bits)
}

fn compute(op: FloatOp, a: f64, b: f64) -> f64 {
    match op {
        FloatOp::Add => a + b,
        FloatOp::Sub => a - b,
        FloatOp::Mul => a * b,
        FloatOp::Div => a / b,
        FloatOp::Rem => a % b,
    }
}

fn json_of(v: &Value) -> serde_json::Value {
    match v {
        Value::Null => serde_json::Value::Null,
        Value::Bool(b) => serde_json::Value::Bool(*b),
        Value::Int(n) => serde_json::Value::from(*n),
        Value::Float(f) => serde_json::Value::from(number(*f)),
        Value::Str(s) => serde_json::Value::from(s.clone()),
        Value::Bytes(b) => serde_json::Value::from(b.as_slice()),
        Value::List(items) => serde_json::Value::Array(items.iter().map(json_of).collect()),
        Value::Record(fields) => {
            let mut out = serde_json::Map::new();
            for i in 0..fields.len() {
                out.insert(fields.name(i).clone(), json_of(fields.at(i)));
            }
            serde_json::Value::Object(out)
        }
    }
}

fn value_of(v: &serde_json::Value) -> Value {
    match v {
        serde_json::Value::Null => Value::Null,
        serde_json::Value::Bool(b) => Value::Bool(*b),
        serde_json::Value::Number(n) => match n.as_i64() {
            Some(i) => Value::Int(i),
            None => Value::Float(float(n.as_f64().unwrap_or(0.0))),
        },
        serde_json::Value::String(s) => Value::Str(s.clone()),
        serde_json::Value::Array(items) => Value::List(items.iter().map(value_of).collect()),
        serde_json::Value::Object(fields) => {
            Value::record(fields.iter().map(|(k, v)| (k.clone(), value_of(v))).collect())
        }
    }
}

/// What any program answers: arithmetic, texts of floats and JSON.
fn calculate(q: &Query) -> Reply {
    match q {
        Query::ParseFloat(s) => match s.parse::<f64>() {
            Ok(f) => Reply::Float(float(f)),
            Err(e) => Reply::Refused(e.to_string()),
        },
        Query::ShowFloat(f) => Reply::Text(number(*f).to_string()),
        Query::Compute(op, a, b) => Reply::Float(float(compute(*op, number(*a), number(*b)))),
        Query::Share(op, a, b) => {
            let (x, y) = (f32::from_bits(a.bits), f32::from_bits(b.bits));
            let z = match op {
                FloatOp::Add => x + y,
                FloatOp::Sub => x - y,
                FloatOp::Mul => x * y,
                FloatOp::Div => x / y,
                FloatOp::Rem => x % y,
            };
            Reply::Share(Share { bits: z.to_bits() })
        }
        Query::WriteJson(v, pretty) => {
            let json = json_of(v);
            let text = if *pretty {
                serde_json::to_string_pretty(&json)
            } else {
                serde_json::to_string(&json)
            };
            Reply::Text(text.expect("values serialize"))
        }
        Query::ReadJson(s) => match serde_json::from_str::<serde_json::Value>(s) {
            Ok(v) => Reply::Value(value_of(&v)),
            Err(e) => Reply::Refused(e.to_string()),
        },
        other => panic!("no answer to {other:?}"),
    }
}

/// Run a computation, answering what it asks.
fn settle<T>(mut f: impl FnMut(&Replies) -> Result<T, Query>) -> T {
    let mut replies = Replies::new();
    loop {
        match f(&replies) {
            Ok(v) => return v,
            Err(q) => {
                let r = calculate(&q);
                replies.add_reply(q, r);
            }
        }
    }
}

/// The same for a computation that has nothing to fail at.
fn settle_paint<T>(mut f: impl FnMut(&Replies) -> Result<T, Stop>) -> T {
    settle(|r| match f(r) {
        Ok(v) => Ok(v),
        Err(Stop::Need(q)) => Err(q),
        Err(Stop::Fail(e)) => panic!("{}", e.msg),
    })
}

const NOISY: u64 = 1;
const BORROWER: u64 = 2;
const BUMP: u64 = 3;
/// Emits as many records as the handle says beyond this one.
const ROWS: u64 = 100;

/// What redirects read and write.
struct Store {
    value: Value,
    reads: usize,
    writes: Vec<(String, Value, bool)>,
    fail_read: bool,
    fail_write: bool,
}

/// An engine and the program around it.
struct Terminal {
    engine: Engine,
    patterns: Vec<Box<dyn Pattern>>,
    tasks: Tasks,
    /// `None` where this host takes no redirects.
    store: Option<Store>,
    /// How often the queue of events was handed on.
    flushes: usize,
}

fn engine() -> Terminal {
    Terminal { engine: Engine::new(), patterns: Vec::new(), tasks: Tasks::new(), store: None, flushes: 0 }
}

/// An engine whose redirects read this value.
fn fixture(value: Value) -> Terminal {
    let store = Store { value, reads: 0, writes: Vec::new(), fail_read: false, fail_write: false };
    Terminal { store: Some(store), ..engine() }
}

impl Terminal {
    fn active_pane(&self) -> u32 {
        self.engine.mux.active_pane()
    }

    fn drain_events(&mut self) -> Vec<EngineEvent> {
        self.engine.drain_events()
    }

    fn snapshot(&self) -> LayoutSnapshot {
        settle(|r| self.engine.snapshot(r))
    }

    fn handle_msg(&mut self, msg: impl Fn() -> HostMsg) -> MsgResult {
        settle(|r| self.engine.handle_msg(msg(), r))
    }

    fn write(&mut self, pane: u32, record: Record) {
        self.engine.write_record(pane, &record);
        self.flushes += 1;
    }

    fn answer(&mut self, pane: u32, q: &Query) -> Reply {
        match q {
            Query::History => Reply::Texts(self.engine.history(pane)),
            Query::Vars(_) => Reply::Vars(self.engine.visible_vars(pane)),
            Query::HelpOverview => Reply::Listing(self.engine.help_overview()),
            Query::HelpFor(name) => match self.engine.help_for(name) {
                Some(page) => Reply::Text(page),
                None => Reply::Refused(name.clone()),
            },
            Query::Clear(_) => {
                self.engine.request_clear(pane);
                Reply::Done
            }
            Query::Mux(_, action) => self.apply(action),
            Query::ReadFrom(_, _) => match &mut self.store {
                Some(store) => {
                    store.reads += 1;
                    if store.fail_read {
                        Reply::Failed(ShellError::runtime("read failed"))
                    } else {
                        Reply::Value(store.value.clone())
                    }
                }
                None => Reply::Refused("no redirects here".to_string()),
            },
            Query::WriteTo(_, target, value, append) => match &mut self.store {
                Some(store) if store.fail_write => {
                    Reply::Failed(ShellError::runtime("write failed"))
                }
                Some(store) => {
                    store.writes.push((target.clone(), value.clone(), *append));
                    Reply::Done
                }
                None => Reply::Refused("no redirects here".to_string()),
            },
            Query::CompilePattern(p, i) => match SubstringMatcher.compile(p, *i) {
                Ok(p) => {
                    self.patterns.push(p);
                    Reply::Handle(self.patterns.len() as u64 - 1)
                }
                Err(e) => Reply::Refused(e),
            },
            Query::Match(p, s) => Reply::Truth(self.patterns[*p as usize].is_match(s)),
            Query::PatternDialect => Reply::Text(SubstringMatcher.dialect().to_string()),
            Query::CompileFn(s) => Reply::Refused(NoFnCompiler.compile(s).expect_err("native")),
            Query::LookupFn(s) => Reply::Refused(refuse_lookup(s)),
            other => calculate(other),
        }
    }

    fn apply(&mut self, action: &MuxAction) -> Reply {
        let (value, _) = settle(|r| self.engine.mux_apply(action.clone(), r));
        match value {
            Ok(v) => Reply::Value(v),
            Err(e) => Reply::Failed(e),
        }
    }

    /// The commands of this host, by their handles.
    fn serve(&mut self, line: &mut Abortable, pane: u32, k: usize, handle: u64) -> bool {
        loop {
            match line.inner.run.outside_recv(k) {
                Received::Item(_) => {}
                Received::Waiting => return false,
                Received::Ended => break,
            }
        }
        match handle {
            NOISY => {
                self.write(pane, Record::log("tick"));
                self.write(pane, Record::err("careful"));
            }
            BUMP => self.engine.set_host_var("x", Value::Int(2)).expect("valid"),
            BORROWER => {
                assert!(self.engine.mux.sessions.len() > 0);
                let one = PipelineData::Value(Value::Int(1));
                assert!(matches!(line.inner.run.outside_send(k, one), Sent::Taken));
            }
            rows => {
                // One round of items at a time, as far as the buffer goes.
                let sent = line.inner.run.out.len() + line.inner.run.links[k + 1].len();
                for i in sent as u64..rows - ROWS {
                    let row = Value::record(vec![("id".to_string(), Value::Int(i as i64))]);
                    match line.inner.run.outside_send(k, PipelineData::Value(row)) {
                        Sent::Taken => {}
                        _ => return i as usize > sent,
                    }
                }
            }
        }
        line.inner.run.outside_finish(k, None);
        true
    }

    /// One turn of a line: answer, serve, or say how far it is.
    fn turn(&mut self, line: &mut Abortable, pane: u32, replies: &mut Replies) -> Turn {
        loop {
            let turn = line.advance(&self.tasks, &self.engine.registry, replies).expect("not aborted");
            match turn {
                Turn::Need(q) => {
                    let r = self.answer(pane, &q);
                    replies.add_reply(q, r);
                }
                Turn::Waiting => {
                    let mut moved = false;
                    for k in 0..line.inner.run.stages.len() {
                        if let Stage::Outside(h, _) = &line.inner.run.stages[k] {
                            let h = *h;
                            moved |= self.serve(line, pane, k, h);
                        }
                    }
                    assert!(moved, "nothing moves");
                }
                other => return other,
            }
        }
    }

    fn begin(&self, line: &str) -> Begun {
        settle(|r| begin_line(line, r))
    }

    fn execute_line(&mut self, pane: u32, line: &str, run_id: u64) {
        let run = match self.begin(line) {
            Begun::Refused(errors) => {
                assert!(errors.iter().all(|e| e.is_drawable(line)));
                self.engine.refuse_line(pane, line, &errors);
                return;
            }
            Begun::Running(run) => run,
        };
        let width = self.engine.width(pane);
        let scope = self.engine.scope_for_pane(pane);
        let (mut run, _) = Abortable::wrap(run, scope, width, &mut self.tasks);
        let mut replies = Replies::new();
        let mut shown = self.engine.begin_pane_run(pane, run_id, width);
        loop {
            let turn = self.turn(&mut run, pane, &mut replies);
            let complete = matches!(turn, Turn::Complete);
            settle_paint(|r| match self.engine.pane_turn(&mut shown, &mut run.inner, complete, r) {
                None => Ok(()),
                Some(stop) => Err(stop),
            });
            if let Turn::Over = turn {
                break;
            }
        }
        self.engine.end_render(pane, run_id);
        let (results, error) = (run.inner.results, run.inner.error);
        assert!(error.iter().all(|e| e.is_drawable(line)));
        settle_paint(|r| self.engine.settle_line(pane, line, &results, &error, width, r));
    }

    /// Evaluate a line the way the programmatic `run()` API does, so a test can
    /// assert on the resulting `Value` rather than on painted text.
    fn run_line(&mut self, line: &str) -> Result<Value, ShellError> {
        let pane = self.active_pane();
        let run = match self.begin(line) {
            Begun::Refused(mut errors) => return Err(errors.remove(0)),
            Begun::Running(run) => run,
        };
        let scope = self.engine.scope_for_pane(pane);
        let (mut run, _) =
            Abortable::wrap(run, scope, self.engine.width(pane), &mut self.tasks);
        let mut replies = Replies::new();
        loop {
            match self.turn(&mut run, pane, &mut replies) {
                Turn::Complete => run.inner.record_collected(),
                Turn::Over => return final_value(run.inner.results, run.inner.error),
                _ => {}
            }
        }
    }

    fn feed_and_run(&mut self, input: &str) -> Vec<EngineEvent> {
        let pane = self.active_pane();
        let fx = self.engine.feed(pane, input);
        for line in fx.submitted {
            self.execute_line(pane, &line, 0);
        }
        self.drain_events()
    }

    fn register(&mut self, name: &str, handle: u64) {
        self.engine
            .registry
            .register_external(Signature::build(name, "a command of the test"), handle)
            .expect("a free name");
    }
}

fn output_text(events: &[EngineEvent]) -> String {
    events
        .iter()
        .map(|ev| match ev {
            EngineEvent::PaneOutput { data, .. } => data.clone(),
            _ => String::new(),
        })
        .collect()
}

fn share(s: Share) -> f32 {
    f32::from_bits(s.bits)
}

#[test]
fn every_pane_chunk_is_reset_prefixed_including_the_engine_s_own_paints() {
    // A command's SGR outlives it on the abort path, so the engine's own
    // paints are drawn in whatever the command left set. For the prompt
    // that is not merely cosmetic: `prompt_line` opens with `\r\x1b[K`,
    // and erase-to-end-of-line fills with the *current* background, so a
    // leaked background repaints the shell's own line. `emit_output`
    // prefixes every chunk, which covers rendered values, `Rendered`
    // text, error renders, progressive paints and the prompt alike --
    // one choke point rather than a reset per call site.
    let mut access = engine();
    let events = access.feed_and_run("echo hi\r");
    let chunks: Vec<&String> = events
        .iter()
        .filter_map(|ev| match ev {
            EngineEvent::PaneOutput { data, .. } => Some(data),
            _ => None,
        })
        .collect();
    assert!(!chunks.is_empty(), "the run painted nothing");
    for chunk in &chunks {
        assert!(chunk.starts_with("\x1b[0m"), "unreset pane chunk: {chunk:?}");
    }
    let last = chunks.last().map(|s| s.as_str()).unwrap_or_default();
    assert!(last.contains("❯"), "the prompt is the last chunk: {last:?}");
    assert!(
        last.starts_with("\x1b[0m\r\x1b[K"),
        "the reset must precede the erase, or `\\x1b[K` fills with a leaked background: {last:?}"
    );
}

#[test]
fn pipeline_renders_to_pane_events() {
    let mut access = engine();
    let events = access.feed_and_run("echo a b c | str upcase\r");
    let out = output_text(&events);
    assert!(out.contains("A"), "output: {out:?}");
    assert!(out.contains("\r\n"), "CRLF conversion applied");
    assert!(out.contains("❯"), "prompt reprinted after output");
}

#[test]
fn parse_error_renders_caret_and_red_prompt() {
    let mut access = engine();
    let events = access.feed_and_run("echo &\r");
    let out = output_text(&events);
    assert!(out.contains("not supported yet"));
    assert!(out.contains("^"));
    assert!(out.contains("\x1b[31m❯"), "red prompt after failure");
}

#[test]
fn unknown_flag_shows_did_you_mean() {
    let mut access = engine();
    let events = access.feed_and_run("sort-by n --reverze\r");
    let out = output_text(&events);
    assert!(out.contains("unknown flag"), "output: {out:?}");
    assert!(out.contains("did you mean `--reverse`?"));
}

#[test]
fn history_builtin_sees_editor_history() {
    let mut access = engine();
    access.feed_and_run("echo one\r");
    let events = access.feed_and_run("history\r");
    let out = output_text(&events);
    assert!(out.contains("echo one"), "output: {out:?}");
}

// --- protocol tests: HostMsg sequences → EngineEvent stream ---

#[test]
fn prefix_percent_splits_and_snapshots() {
    let mut access = engine();
    let first = access.active_pane();

    access.handle_msg(|| HostMsg::PrefixKey);
    let result = access.handle_msg(|| HostMsg::Key { key: "%".to_string() });
    let (pane, cmd) = result.run.expect("keymap resolves");
    assert_eq!(pane, first);
    assert_eq!(cmd, "mux split --right");
    access.execute_line(pane, &cmd, 0);

    let events = access.drain_events();
    assert!(events.iter().any(|e| matches!(e, EngineEvent::PrefixState { active: true })));
    assert!(events.iter().any(|e| matches!(e, EngineEvent::PaneOpened { .. })));
    let snapshot = events
        .iter()
        .rev()
        .find_map(|e| match e {
            EngineEvent::LayoutChanged { snapshot } => Some(snapshot),
            _ => None,
        })
        .expect("layout event");
    assert_eq!(snapshot.panes.len(), 2);
    assert!((share(snapshot.panes[0].rect.w) - 0.5).abs() < 1e-4);
    assert_ne!(snapshot.active_pane, first, "new pane focused");
}

#[test]
fn kill_pane_refocuses_and_closes() {
    let mut access = engine();
    let first = access.active_pane();
    let at = first;
    access.execute_line(at, "mux split --right", 0);
    let second = access.active_pane();
    let at = second;
    access.execute_line(at, "mux kill-pane", 0);

    let events = access.drain_events();
    assert!(events
        .iter()
        .any(|e| matches!(e, EngineEvent::PaneClosed { pane } if *pane == second)));
    assert_eq!(access.active_pane(), first);
    let snapshot = access.snapshot();
    assert_eq!(snapshot.panes.len(), 1);
}

#[test]
fn session_fork_switch_via_commands() {
    let mut access = engine();
    let pane_main = access.active_pane();
    let at = pane_main;
    access.execute_line(at, "session new work", 0);
    let pane_work = access.active_pane();
    assert_ne!(pane_main, pane_work);

    let snapshot = access.snapshot();
    assert_eq!(snapshot.sessions.len(), 2);
    assert!(snapshot.sessions.iter().any(|s| s.name == "work" && s.active));

    let at = pane_work;
    access.execute_line(at, "session switch main", 0);
    assert_eq!(access.active_pane(), pane_main);

    // Each pane keeps its own shell: histories are separate.
    access.feed_and_run("echo in-main\r");
    let hist_main = access.engine.mux.pane(pane_main).map(|p| p.editor.history().to_vec());
    let hist_work = access.engine.mux.pane(pane_work).map(|p| p.editor.history().to_vec());
    assert!(hist_main.unwrap_or_default().contains(&"echo in-main".to_string()));
    assert!(hist_work.unwrap_or_default().is_empty());
}

#[test]
fn session_list_prints_table() {
    let mut access = engine();
    let events = access.feed_and_run("session list\r");
    let out = output_text(&events);
    assert!(out.contains("main"), "output: {out:?}");
    assert!(out.contains("windows"), "table header: {out:?}");
}

#[test]
fn unarmed_key_does_nothing() {
    let mut access = engine();
    let result = access.handle_msg(|| HostMsg::Key { key: "%".to_string() });
    assert_eq!(result.run, None, "no keymap without prefix");
}

#[test]
fn focus_pane_msg_switches_focus() {
    let mut access = engine();
    let first = access.active_pane();
    let at = first;
    access.execute_line(at, "mux split --right", 0);
    let second = access.active_pane();
    assert_ne!(first, second);
    access.handle_msg(|| HostMsg::FocusPane { pane: first });
    assert_eq!(access.active_pane(), first);
}

#[test]
fn resize_split_msg_updates_snapshot() {
    let mut access = engine();
    let first = access.active_pane();
    let at = first;
    access.execute_line(at, "mux split --right", 0);
    let fraction = Share { bits: 0.7f32.to_bits() };
    access.handle_msg(|| HostMsg::ResizeSplit { path: vec![0], fraction });
    let snapshot = access.snapshot();
    assert!((share(snapshot.panes[0].rect.w) - 0.7).abs() < 1e-4, "{:?}", snapshot.panes);
}

#[test]
fn hide_command_emits_event() {
    let mut access = engine();
    let events = access.feed_and_run("mux hide\r");
    assert!(events.iter().any(|e| matches!(e, EngineEvent::HidePanel)));
}

#[test]
fn mux_zoom_roundtrip_via_prefix() {
    let mut access = engine();
    let pane = access.active_pane();
    let at = pane;
    access.execute_line(at, "mux split --down", 0);
    let at = access.active_pane();
    access.execute_line(at, "mux zoom", 0);
    let snapshot = access.snapshot();
    assert_eq!(snapshot.panes.len(), 1, "zoomed pane fills the window");
    assert!(snapshot.zoomed.is_some());
}

#[test]
fn pane_sink_strips_escapes_from_diagnostics() {
    let mut access = engine();
    let pane = access.active_pane();

    access.write(pane, Record::log("\x1b[2Jcleared"));
    access.write(pane, Record::err("bad\nthing"));

    let out = output_text(&access.drain_events());
    // The command's own escape is gone...
    assert!(!out.contains("[2J"), "clear-screen survived: {out:?}");
    assert!(out.contains("cleared"));
    // ...the newline is collapsed, keeping one diagnostic on one line...
    assert!(out.contains("bad thing"));
    // ...and our styling is applied around the sanitized text.
    assert!(out.contains("\x1b[31m"), "err not styled: {out:?}");
}

#[test]
fn pane_sink_flushes_after_every_write() {
    let mut access = engine();
    let pane = access.active_pane();
    access.write(pane, Record::log("one"));
    assert_eq!(access.flushes, 1, "write should flush immediately");
    assert_eq!(access.drain_events().len(), 1, "the write is there to be flushed");
    access.write(pane, Record::err("two"));
    assert_eq!(access.flushes, 2, "each write should flush, not just the last");
    assert_eq!(access.drain_events().len(), 1);
}

#[test]
fn the_pane_emits_a_raw_record_verbatim() {
    // A partial write must not gain a newline, and must not be wrapped
    // in the err channel's colour -- a progress bar owns its own line.
    let mut access = engine();
    let pane = access.active_pane();
    access.write(pane, Record::raw_log("50%\r"));
    let out = output_text(&access.drain_events());
    assert!(out.contains("50%\r"), "raw text altered: {out:?}");
    assert!(!out.contains("50%\r\n"), "newline appended: {out:?}");

    let mut access2 = engine();
    let pane2 = access2.active_pane();
    access2.write(pane2, Record::raw_err("oops"));
    let out2 = output_text(&access2.drain_events());
    assert!(!out2.contains("\x1b[31m"), "raw err was colour-wrapped: {out2:?}");
}

#[test]
fn every_pane_record_is_reset_prefixed_so_sgr_cannot_bleed() {
    // The allowlist permits SGR only because styling is bounded. It
    // cannot be bounded by cleanup at the command boundary: an aborted
    // body is never resumed, so a command that writes conceal (`\x1b[8m`) and
    // then hangs would leave later output invisible forever. Prefixing
    // every record with a reset makes that unreachable.
    let mut access = engine();
    let pane = access.active_pane();
    access.write(pane, Record::raw_log("\x1b[8mhidden"));
    access.write(pane, Record::log("after"));
    let out = output_text(&access.drain_events());
    // The innocent second write starts from a clean slate.
    let after = out.find("after").expect("second write painted");
    let reset_before = out[..after].rfind("\x1b[0m").expect("reset precedes it");
    assert!(reset_before < after, "no reset before the following record");
}

#[test]
fn typed_command_diagnostics_reach_the_pane() {
    let mut access = engine();
    access.register("noisy", NOISY);
    let out = output_text(&access.feed_and_run("noisy\r"));
    assert!(out.contains("tick"), "log missing from pane: {out:?}");
    assert!(out.contains("careful"), "err missing from pane: {out:?}");
    assert!(out.contains("\x1b[31m"), "err not styled: {out:?}");
}

#[test]
fn concurrent_stages_never_hold_overlapping_engine_borrows() {
    let mut access = engine();
    access.register("borrower", BORROWER);
    // Three stages, each reaching the engine while the others are in flight.
    let events = access.feed_and_run("borrower | borrower | borrower\r");
    let out = output_text(&events);
    assert!(out.contains('1'), "pipeline produced no output: {out:?}");
}

#[test]
fn a_finite_table_renders_the_same_through_the_progressive_path() {
    // A small result still paints a complete table -- header,
    // every row, bottom border.
    let mut access = engine();
    access.register("rows", ROWS + 3);
    let out = output_text(&access.feed_and_run("rows\r"));
    assert!(out.contains("id"), "header: {out:?}");
    for expected in ['0', '1', '2'] {
        assert!(out.contains(expected), "row {expected} missing: {out:?}");
    }
}

/// Number of separate PaneOutput events — the observable difference
/// between painting incrementally and emitting one block at the end.
fn pane_output_count(events: &[EngineEvent]) -> usize {
    events
        .iter()
        .filter(|ev| matches!(ev, EngineEvent::PaneOutput { .. }))
        .count()
}

#[test]
fn a_long_result_paints_incrementally_not_in_one_block() {
    // 60 rows against a 50-row probe: the probe commits (header + first
    // 50 rows), then each remaining row paints on its own. A collect-once
    // implementation would emit a single output event instead, so the
    // count is what distinguishes them -- asserting only that the header
    // precedes the last row would pass either way.
    let mut access = engine();
    access.register("rows", ROWS + 60);
    let events = access.feed_and_run("rows\r");
    let out = output_text(&events);

    assert!(out.contains("id"), "header painted: {out:?}");
    assert!(out.contains("59"), "last row painted: {out:?}");

    // Prompt/echo also emit PaneOutput, so compare against the finite
    // case rather than a magic number: 60 rows must produce many more
    // output events than a 3-row result does.
    let mut small = engine();
    small.register("rows", ROWS + 3);
    let small_events = small.feed_and_run("rows\r");

    let many = pane_output_count(&events);
    let few = pane_output_count(&small_events);
    assert!(
        many > few + 5,
        "expected incremental paints ({many}) to far exceed the finite case ({few})"
    );
}

/// A consumer that holds one row and has painted nothing.
fn probing(id: i64) -> ProgressiveConsumer {
    let mut c = ProgressiveConsumer::new(80);
    let row = PipelineData::Value(Value::record(vec![("id".to_string(), Value::Int(id))]));
    let painted = settle_paint(|r| c.item(&row, r));
    assert_eq!(painted, None, "still probing: nothing painted yet");
    c
}

#[test]
fn a_host_deadline_commits_a_partial_probe() {
    // A slow source: fewer rows than the probe holds have arrived, so nothing
    // has painted. The host's deadline forces what is there.
    let mut access = engine();
    let pane = access.active_pane();
    let run_id = 1;
    let mut c = probing(7);
    access.engine.begin_render(pane, run_id);

    let forced = settle_paint(|r| access.engine.commit_pending_render(pane, run_id, &mut c, r))
        .expect("the deadline forces a commit of the buffered row");
    assert!(forced.contains("id"), "header painted: {forced:?}");
    assert!(forced.contains('7'), "buffered row painted: {forced:?}");

    // Already committed: a second deadline (or the run's own end-of-stream
    // commit) is a safe no-op, not a repainted header.
    assert_eq!(settle_paint(|r| access.engine.commit_pending_render(pane, run_id, &mut c, r)), None);

    // A pane with nothing pending -- no run ever started, or its run already
    // finished and deregistered -- is also a no-op.
    let mut other = probing(7);
    assert_eq!(
        settle_paint(|r| access.engine.commit_pending_render(pane + 1, run_id, &mut other, r)),
        None
    );
}

#[test]
fn a_finished_consumer_has_nothing_left() {
    let mut c = ProgressiveConsumer::new(80);
    let item = PipelineData::Value(Value::Str("seven".into()));
    assert_eq!(settle_paint(|r| c.item(&item, r)), None);
    let (first, value) = settle_paint(|r| c.finish(r));
    assert_eq!(first, Vec::<String>::new(), "a plain value is reported, not painted");
    assert!(matches!(value, PipelineData::Value(Value::Str(s)) if s == "seven"));
    let (second, value) = settle_paint(|r| c.finish(r));
    assert_eq!(second, Vec::<String>::new());
    assert!(matches!(value, PipelineData::Empty), "nothing is reported twice");
}

#[test]
fn a_default_engine_is_a_new_one() {
    let e = bterm::engine::Engine::default();
    let n = bterm::engine::Engine::new();
    assert_eq!(e.mux.active_pane(), n.mux.active_pane());
    assert_eq!(e.mux.panes.len(), 1);
}

#[test]
fn a_mutation_tells_the_host_before_it_returns() {
    let mut e = Engine::new();
    let (value, closed) = settle(|r| e.mux_apply(MuxAction::KillPane, r));
    assert!(matches!(value, Ok(Value::Null)));
    assert_eq!(closed, vec![0]);
    let events = e.drain_events();
    let told: Vec<u32> = events
        .iter()
        .filter_map(|e| match e {
            EngineEvent::PaneClosed { pane } => Some(*pane),
            _ => None,
        })
        .collect();
    assert_eq!(told, closed);
    assert!(events.iter().any(|e| matches!(e, EngineEvent::PaneOpened { .. })));
    assert!(events.iter().any(|e| matches!(e, EngineEvent::SessionClosed { .. })));
    assert!(matches!(events.last(), Some(EngineEvent::LayoutChanged { .. })));
}

#[test]
fn a_refused_action_tells_nothing() {
    let mut e = Engine::new();
    for action in [
        MuxAction::Focus("sideways".to_string()),
        MuxAction::SessionSwitch { name: "nowhere".to_string() },
    ] {
        let (value, closed) = settle(|r| e.mux_apply(action.clone(), r));
        let err = value.expect_err("refused");
        assert_eq!(err.kind, ErrorKind::Runtime);
        assert!(err.help.is_some());
        assert!(closed.is_empty());
        assert!(e.drain_events().is_empty());
    }
}

#[test]
fn a_missing_answer_takes_the_mutation_back() {
    let mut e = Engine::new();
    settle(|r| e.mux_apply(MuxAction::SplitRight, r)).0.expect("split");
    e.drain_events();
    let before = (e.mux.active_pane(), e.mux.panes.len(), e.mux.next_id);
    assert!(e.mux_apply(MuxAction::SplitDown, &Replies::new()).is_err(), "the picture is asked for");
    assert_eq!((e.mux.active_pane(), e.mux.panes.len(), e.mux.next_id), before);
    assert!(e.drain_events().is_empty());
    settle(|r| e.mux_apply(MuxAction::SplitDown, r)).0.expect("split");
    assert_eq!(e.mux.panes.len(), 3);
}

#[test]
fn a_panes_items_are_shown_once() {
    let mut access = engine();
    let pane = access.active_pane();
    access.drain_events();
    access.execute_line(pane, "echo one; echo two", 9);
    let shown: String = access
        .drain_events()
        .iter()
        .filter_map(|e| match e {
            EngineEvent::PaneOutput { data, .. } => Some(data.clone()),
            _ => None,
        })
        .collect();
    assert_eq!(shown.matches("one").count(), 1);
    assert_eq!(shown.matches("two").count(), 1);
    assert!(shown.find("one") < shown.find("two"));
    assert!(!access.engine.renders(pane, 9), "the renderer is released");
}

#[test]
fn a_second_runs_deadline_does_not_hijack_the_first() {
    // A user can submit a second line into the same pane while the first is
    // still streaming. Without the run-id check, the *older* run's still-armed
    // timer would force a commit on the *newer* run's renderer -- silently
    // abandoning its own.
    let mut access = engine();
    let pane = access.active_pane();
    let (run_a, run_b) = (1, 2);
    let mut a = probing(1);
    access.engine.begin_render(pane, run_a);

    // Run B starts in the same pane before A's deadline fires.
    let mut b = probing(2);
    access.engine.begin_render(pane, run_b);

    // A's deadline fires: it must not touch B's renderer.
    assert_eq!(
        settle_paint(|r| access.engine.commit_pending_render(pane, run_a, &mut a, r)),
        None,
        "a superseded run's deadline must not drive the newer run's renderer"
    );
    assert!(!b.is_committed(), "A's deadline must not have force-committed B's renderer");
    assert!(
        access.engine.probe_settled(pane, run_a, &a),
        "a superseded run reads as settled -- it has nothing left to do here"
    );

    // B's own deadline still works normally.
    let forced = settle_paint(|r| access.engine.commit_pending_render(pane, run_b, &mut b, r))
        .expect("B's own deadline still commits B's buffered row");
    // Check the coloured numeric cell specifically, not a bare digit -- the
    // header's bold escape (`\x1b[1m`) itself contains a literal '1'.
    assert!(forced.contains("\x1b[36m2"), "B's row painted: {forced:?}");
    assert!(!forced.contains("\x1b[36m1"), "A's row must not appear: {forced:?}");

    // The end of A leaves the pane to B; the end of B frees it.
    access.engine.end_render(pane, run_a);
    assert!(access.engine.renders(pane, run_b));
    access.engine.end_render(pane, run_b);
    assert!(!access.engine.renders(pane, run_b));
}

#[test]
fn a_deadline_waits_for_the_first_row() {
    let mut access = engine();
    let pane = access.active_pane();
    access.engine.begin_render(pane, 1);
    let mut c = ProgressiveConsumer::new(80);
    let step = settle_paint(|r| access.engine.probe_check(pane, 1, &mut c, r));
    assert!(matches!(step, ProbeStep::Again), "nothing arrived yet");
    let mut c = probing(3);
    let step = settle_paint(|r| access.engine.probe_check(pane, 1, &mut c, r));
    assert!(matches!(step, ProbeStep::Paint(_)));
    let step = settle_paint(|r| access.engine.probe_check(pane, 1, &mut c, r));
    assert!(matches!(step, ProbeStep::Over), "a committed renderer is settled");
}

// --- host variables ---

#[test]
fn a_host_variable_resolves_in_a_command() {
    let mut access = engine();
    {
        let e = &mut access.engine;
        e.set_host_var("greeting", Value::Str("hello".into())).expect("valid name");
    }
    let out = access.run_line("echo $greeting").expect("resolves");
    assert_eq!(out, Value::Str("hello".into()));
}

#[test]
fn a_session_variable_overrides_a_host_variable() {
    let mut access = engine();
    {
        let e = &mut access.engine;
        e.set_host_var("x", Value::Str("host".into())).expect("valid name");
        let sid = e.mux.active_session;
        if let Some(vars) = e.mux.session_vars_mut(sid) {
            vars.insert("x".into(), Value::Str("session".into()));
        }
    }
    assert_eq!(
        access.run_line("echo $x").expect("resolves"),
        Value::Str("session".into())
    );
}

#[test]
fn setting_a_host_variable_again_replaces_it() {
    let mut access = engine();
    {
        let e = &mut access.engine;
        e.set_host_var("x", Value::Int(1)).expect("valid");
        e.set_host_var("x", Value::Int(2)).expect("valid");
    }
    assert_eq!(access.run_line("echo $x").expect("resolves"), Value::Int(2));
}

#[test]
fn unsetting_restores_the_unknown_variable_error() {
    let mut access = engine();
    {
        let e = &mut access.engine;
        e.set_host_var("x", Value::Int(1)).expect("valid");
        assert!(e.unset_host_var("x"), "was set, so removal reports true");
        assert!(!e.unset_host_var("x"), "already gone, so a second removal reports false");
    }
    let err = access.run_line("echo $x").expect_err("no longer set");
    assert!(err.msg.contains("unknown variable `$x`"), "{}", err.msg);
}

#[test]
fn an_invalid_name_is_rejected_rather_than_stored() {
    let mut access = engine();
    {
        let e = &mut access.engine;
        let err = e.set_host_var("a b", Value::Int(1)).expect_err("space is not a var char");
        assert!(err.msg.contains("a b"), "the error should name the offender: {}", err.msg);
        assert!(e.host_vars().len() == 0, "nothing should have been stored");
        assert_eq!(e.host_var("a b"), None);

        // Names the lexer accepts that an ASCII-only rule would not: this
        // is what pins the reuse of `is_valid_var_name` rather than a
        // hand-written pattern. `is_var_char` is Unicode-aware and
        // imposes no leading-character rule.
        e.set_host_var("café", Value::Int(7)).expect("unicode letters are var chars");
        e.set_host_var("1", Value::Int(8)).expect("a leading digit is legal");
    }
    // Accepted *and* referenceable: the rule is only right if the lexer
    // agrees, so assert through evaluation rather than on the validator's
    // return value alone.
    assert_eq!(access.run_line("echo $café").expect("resolves"), Value::Int(7));
    assert_eq!(access.run_line("echo $1").expect("resolves"), Value::Int(8));
}

#[test]
fn interpolation_sees_host_variables() {
    let mut access = engine();
    {
        let e = &mut access.engine;
        e.set_host_var("name", Value::Str("world".into())).expect("valid");
    }
    assert_eq!(
        access.run_line(r#"echo "hello-$name""#).expect("resolves"),
        Value::Str("hello-world".into())
    );
}

#[test]
fn a_pipeline_keeps_the_values_its_line_started_with() {
    // The teeth of the freshness guarantee: `bump` really does change the
    // engine's host variable mid-line, and `echo $x` -- a later pipeline
    // of the *same* line -- must still report what the line started with.
    // Re-deriving the scope per pipeline (live lookup) makes this say 2.
    let mut access = engine();
    access.register("bump", BUMP);
    access.engine.set_host_var("x", Value::Int(1)).expect("valid");
    assert_eq!(
        access.run_line("bump; echo $x").expect("resolves"),
        Value::Int(1),
        "a line sees the values it started with, not a mid-line write"
    );
    // The write did land -- otherwise the assertion above would pass for
    // the wrong reason.
    assert_eq!(access.engine.host_var("x"), Some(&Value::Int(2)), "bump ran");
    // And the next line picks it up.
    assert_eq!(access.run_line("echo $x").expect("resolves"), Value::Int(2));
}

#[test]
fn scope_for_pane_returns_an_owned_snapshot() {
    // Narrower than the test above: it only shows that host variables
    // reach the derived scope and that the scope is owned, so a later
    // write cannot reach back into one already taken. It says nothing
    // about when evaluation takes it -- that is the mid-line test's job.
    let mut access = engine();
    let pane = access.active_pane();
    {
        let e = &mut access.engine;
        e.set_host_var("x", Value::Int(1)).expect("valid");
    }
    let taken = access.engine.scope_for_pane(pane);
    {
        let e = &mut access.engine;
        e.set_host_var("x", Value::Int(2)).expect("valid");
    }
    assert_eq!(
        taken.get("x"),
        Some(&Value::Int(1)),
        "an already-taken scope must not see a later write"
    );
    assert_eq!(
        access.engine.scope_for_pane(pane).get("x"),
        Some(&Value::Int(2)),
        "but the next line does"
    );
}

// --- session variables ---

#[test]
fn a_session_variable_resolves_in_that_session() {
    let mut access = engine();
    let sid = access.engine.mux.active_session;
    {
        let e = &mut access.engine;
        e.set_session_var(sid, "scratch", Value::Str("mine".into())).expect("valid");
    }
    assert_eq!(
        access.run_line("echo $scratch").expect("resolves"),
        Value::Str("mine".into())
    );
}

#[test]
fn a_session_variable_shadows_the_host_one_without_destroying_it() {
    let mut access = engine();
    let sid = access.engine.mux.active_session;
    {
        let e = &mut access.engine;
        e.set_host_var("x", Value::Str("host".into())).expect("valid");
        e.set_session_var(sid, "x", Value::Str("session".into())).expect("valid");
    }
    assert_eq!(
        access.run_line("echo $x").expect("resolves"),
        Value::Str("session".into())
    );
    // The host layer is untouched — shadowing hides a value, it does not
    // overwrite one. Reading the layer directly is how a host tells the
    // difference, since a read never merges.
    {
        let e = &mut access.engine;
        assert_eq!(e.host_var("x"), Some(&Value::Str("host".into())));
        assert_eq!(
            e.session_var(sid, "x").expect("live session"),
            Some(&Value::Str("session".into()))
        );
    }
}

#[test]
fn unsetting_a_session_variable_reveals_the_host_one_again() {
    let mut access = engine();
    let sid = access.engine.mux.active_session;
    {
        let e = &mut access.engine;
        e.set_host_var("x", Value::Str("host".into())).expect("valid");
        e.set_session_var(sid, "x", Value::Str("session".into())).expect("valid");
        assert!(e.unset_session_var(sid, "x").expect("live session"));
        assert!(!e.unset_session_var(sid, "x").expect("live session"), "already gone");
    }
    assert_eq!(
        access.run_line("echo $x").expect("resolves"),
        Value::Str("host".into())
    );
}

#[test]
fn an_unknown_session_id_errors_rather_than_silently_doing_nothing() {
    let mut access = engine();
    {
        let e = &mut access.engine;
        let missing: u32 = 9999;
        let err = e
            .set_session_var(missing, "x", Value::Int(1))
            .expect_err("no such session");
        assert!(err.msg.contains("9999"), "the error should name the id: {}", err.msg);
        assert!(e.unset_session_var(missing, "x").is_err());
        assert!(e.session_var(missing, "x").is_err());
        assert!(e.session_vars(missing).is_err());
    }
}

#[test]
fn vars_shows_a_shadowed_name_once_labelled_session() {
    let mut access = engine();
    let sid = access.engine.mux.active_session;
    {
        let e = &mut access.engine;
        e.set_host_var("shared", Value::Str("host".into())).expect("valid");
        e.set_host_var("only_host", Value::Int(1)).expect("valid");
        e.set_session_var(sid, "shared", Value::Str("session".into())).expect("valid");
    }
    // Two names, not three: the shadowed host entry is hidden, not
    // duplicated. `map` keeps every stage non-singleton.
    assert_eq!(access.run_line("vars | length").expect("resolves"), Value::Int(2));
    assert_eq!(
        access.run_line("vars | filter {|r| $r.name == 'shared'} | map {|r| $r.scope}")
            .expect("resolves"),
        Value::Str("session".into())
    );
    assert_eq!(
        access.run_line("vars | filter {|r| $r.name == 'shared'} | map {|r| $r.value}")
            .expect("resolves"),
        Value::Str("session".into())
    );
}

#[test]
fn an_invalid_session_variable_name_is_rejected_by_the_lexer_rule() {
    let mut access = engine();
    let sid = access.engine.mux.active_session;
    {
        let e = &mut access.engine;
        assert!(e.set_session_var(sid, "a b", Value::Int(1)).is_err());
        // Names only the real rule allows, so an ASCII-only pattern
        // creeping in here is caught. `is_alphanumeric` is Unicode-aware
        // and there is no leading-character restriction.
        e.set_session_var(sid, "café", Value::Int(7))
            .expect("unicode letters are var chars");
        e.set_session_var(sid, "1", Value::Int(8)).expect("a leading digit is legal");
    }
    assert_eq!(access.run_line("echo $café").expect("resolves"), Value::Int(7));
    assert_eq!(access.run_line("echo $1").expect("resolves"), Value::Int(8));
}

#[test]
fn read_values_feed_pipelines_and_writes_preserve_collection_shape() {
    let value = Value::List(vec![Value::Int(1), Value::Int(2), Value::Int(3)]);
    let mut access = fixture(value);
    access.engine.set_host_var("target", Value::Str("out name".into())).expect("variable");
    assert_eq!(access.run_line("head 1 < source > $target").expect("redirect"), Value::Null);
    assert_eq!(
        access.run_line("length < source > \"$target.count\"").expect("redirect"),
        Value::Null
    );
    assert_eq!(
        access.store.as_ref().expect("a store").writes,
        vec![
            ("out name".into(), Value::List(vec![Value::Int(1)]), false),
            ("out name.count".into(), Value::Int(3), false),
        ]
    );
    assert_eq!(access.run_line("length < source").expect("read"), Value::Int(3));
}

#[test]
fn redirects_preserve_bytes_records_and_append_intent() {
    let bytes = Value::Bytes(vec![0, 128, 255]);
    let mut access = fixture(bytes.clone());
    access.run_line("map {|x| $x} < src >> dst").expect("bytes");
    access.run_line("echo '{\"x\":1}' | from json > dst").expect("record");
    access.run_line("echo '[]' | from json > empty").expect("empty list");
    assert_eq!(
        access.store.as_ref().expect("a store").writes,
        vec![
            ("dst".into(), bytes, true),
            ("dst".into(), Value::record(vec![("x".into(), Value::Int(1))]), false),
            ("empty".into(), Value::List(vec![]), false),
        ]
    );
}

#[test]
fn invalid_targets_and_pipeline_failures_do_not_write() {
    let mut access = fixture(Value::Str("hello".into()));
    assert!(access
        .run_line("length < source > 42")
        .expect_err("numeric target")
        .msg
        .contains("must be a string"));
    assert_eq!(access.store.as_ref().expect("a store").reads, 0, "validate targets before reading");
    assert!(access.run_line("missing > dst").is_err());
    assert!(access.run_line("echo 5 | length > dst").is_err());
    access.store.as_mut().expect("a store").fail_read = true;
    assert!(access
        .run_line("length < source > dst")
        .expect_err("read failure")
        .msg
        .contains("read failed"));
    access.store.as_mut().expect("a store").fail_write = true;
    let error = access.run_line("echo hi > dst").expect_err("write failure");
    assert!(error.msg.contains("write failed"));
    assert!(error.span.is_some());
    assert!(access.store.as_ref().expect("a store").writes.is_empty());
}

#[test]
fn redirects_consume_terminal_output_and_can_be_disabled() {
    let mut access = fixture(Value::Null);
    access.execute_line(0, "echo hidden-payload > dst", 0);
    let events = access.drain_events();
    let text = output_text(&events);
    assert!(!text.contains("hidden-payload"));
    assert!(text.contains('❯'));
    assert_eq!(access.store.as_ref().expect("a store").writes.len(), 1);
    let store = access.store.take();
    assert!(access.run_line("echo blocked > dst").is_err());
    assert_eq!(store.expect("a store").writes.len(), 1);
}

#[test]
fn redirected_pipelines_stand_beside_others_of_a_line() {
    let mut access = fixture(Value::List(vec![]));
    access.execute_line(0, "echo shown; map {|x| $x} < none > copy; head 1 < none >> copy", 0);
    let text = output_text(&access.drain_events());
    assert!(text.contains("shown"), "{text}");
    let store = access.store.as_ref().expect("a store");
    assert_eq!(store.reads, 2, "each redirect reads for itself");
    assert_eq!(
        store.writes,
        vec![
            ("copy".into(), Value::List(vec![]), false),
            ("copy".into(), Value::List(vec![]), true),
        ]
    );
}

#[test]
fn a_single_row_of_head_is_written_as_that_row() {
    let mut access = fixture(Value::List(vec![Value::Int(1), Value::Int(2)]));
    access.run_line("head < source > one").expect("redirect");
    access.run_line("filter {|n| $n > 1} < source > some").expect("redirect");
    assert_eq!(
        access.store.as_ref().expect("a store").writes,
        vec![
            ("one".into(), Value::Int(1), false),
            ("some".into(), Value::List(vec![Value::Int(2)]), false),
        ]
    );
}

#[test]
fn the_same_request_twice_in_a_line_is_made_twice() {
    let mut access = engine();
    access.run_line("mux split; mux split").expect("two splits");
    assert_eq!(access.engine.mux.panes.len(), 3);
}

#[test]
fn redirects_come_last_and_once() {
    let mut access = fixture(Value::Null);
    let mut refusal = |line: &str| access.run_line(line).expect_err("refused").msg;
    assert_eq!(
        refusal("echo a > dst | length"),
        "expected the end of the pipeline after a redirect, found `|`"
    );
    assert_eq!(
        refusal("echo a > dst extra"),
        "expected the end of the pipeline after a redirect, found `extra`"
    );
    assert_eq!(
        refusal("echo a > one >> two"),
        "a pipeline takes one redirect for each direction"
    );
    assert_eq!(refusal("echo a >"), "expected a value");
    assert!(access.store.expect("a store").writes.is_empty());
}
