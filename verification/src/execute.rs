//! Running a submitted line in a pane: what it prints, and the prompt behind
//! it. The rounds of the line itself are in `eval`; the host drives them.

use crate::ask::{Query, QueryView, Replies, ReplySeq, Stop, StopView};
use crate::ast::{Pipeline, PipelineView};
use crate::diagnostics;
use crate::editor::EditorView;
use crate::engine;
use crate::engine::{Engine, EngineView};
use crate::error;
use crate::error::{ErrorView, ShellError};
use crate::eval;
use crate::eval::{LineRun, LineRunView};
use crate::expr::{Scope, ScopeSeq};
use crate::mux::maps;
use crate::mux::model;
use crate::mux::model::MuxView;
use crate::mux::soundness;
use crate::parse;
use crate::progress;
use crate::progress::{ConsumerView, ProgressiveConsumer};
use crate::protocol::{EngineEvent, EventView};
use crate::registry;
use crate::registry::{DataView, EntrySeq, PipelineData, VarOrigin, VisibleVar, VisibleView};
use crate::render::stream;
use crate::signature;
use crate::sink::{Channel, Record, RecordView};
use crate::text;
use crate::value;
use crate::value::{Value, ValueView};
use vstd::prelude::*;

verus! {

broadcast use crate::value::value_view_cases;

/// The output of some texts in a pane, one chunk each.
pub open spec fn chunks(pane: u32, texts: Seq<Seq<char>>) -> Seq<EventView>
    decreases texts.len(),
{
    if texts.len() == 0 {
        Seq::empty()
    } else {
        chunks(pane, texts.drop_last()) + engine::output_events(pane, texts.last())
    }
}

/// A pane that is idle again, with the status of its last line.
pub open spec fn idle(e: EngineView, pane: u32, ok: bool) -> EngineView {
    match maps::key_at(e.mux.panes, pane) {
        Some(k) => {
            let p = e.mux.panes[k].1;
            engine::with_pane(
                e,
                pane,
                model::PaneView {
                    running: false,
                    editor: EditorView { last_ok: ok, ..p.editor },
                    ..p
                },
            )
        },
        None => e,
    }
}

/// The engine after a line ended in a pane: the pane is idle, and its prompt,
/// coloured by the status, is printed. A pane that closed mid-run gets none.
pub open spec fn ended(e: EngineView, pane: u32, ok: bool) -> EngineView {
    let rested = idle(e, pane, ok);
    rested.emitting(engine::output_events(pane, engine::prompt_of(rested.mux, pane)))
}

/// What a new terminal shows first.
pub const BANNER: &'static str = "\x1b[1mbrowser-terminal\x1b[0m — structured shell. Type \x1b[36mhelp\x1b[0m to explore, \x1b[36mCtrl-B %\x1b[0m to split.\n";

/// What opening a terminal tells the host.
pub open spec fn greeting(e: EngineView, replies: ReplySeq) -> Result<Seq<EventView>, QueryView> {
    let pane = model::window_of(e.mux).active_pane;
    match engine::pictured(e.mux, replies) {
        Err(q) => Err(q),
        Ok(snapshot) => Ok(
            (engine::output_events(pane, BANNER@) + engine::output_events(
                pane,
                engine::prompt_of(e.mux, pane),
            )).push(EventView::LayoutChanged { snapshot }),
        ),
    }
}

/// What some errors print.
pub open spec fn error_texts(errors: Seq<ErrorView>, source: Seq<char>) -> Seq<Seq<char>> {
    errors.map_values(|e: ErrorView| error::rendered(e, source))
}

/// A line on its way, or the errors that kept it from starting.
pub enum Begun {
    Running(LineRun),
    Refused(Vec<ShellError>),
}

pub enum BegunView {
    Running(LineRunView),
    Refused(Seq<ErrorView>),
}

impl View for Begun {
    type V = BegunView;

    open spec fn view(&self) -> BegunView {
        match self {
            Begun::Running(run) => BegunView::Running(run@),
            Begun::Refused(errors) => BegunView::Refused(parse::errors_view(errors@)),
        }
    }
}

/// A submitted line runs where it parses without an error.
pub open spec fn begun(line: Seq<char>, replies: ReplySeq) -> Result<BegunView, QueryView> {
    match parse::parsed(line, replies) {
        Err(q) => Err(q),
        Ok(o) => Ok(
            if o.errors.len() > 0 {
                BegunView::Refused(o.errors)
            } else {
                BegunView::Running(eval::line_begun(o.line.pipelines))
            },
        ),
    }
}

/// Parse a submitted line, and begin its first pipeline.
pub fn begin_line(line: &str, replies: &Replies) -> (r: Result<Begun, Query>)
    requires
        text::byte_len(line@) <= u32::MAX,
    ensures
        match begun(line@, replies@) {
            Ok(b) => r matches Ok(x) && x@ == b,
            Err(q) => r matches Err(x) && x@ == q,
        },
        r matches Ok(Begun::Running(run)) ==> run@.wf(),
        r matches Ok(Begun::Refused(errors)) ==> forall|k: int|
            0 <= k < errors@.len() ==> error::drawable((#[trigger] errors@[k])@, line@),
{
    match parse::parse(line, replies) {
        Err(q) => Err(q),
        Ok(outcome) => {
            proof {
                parse::parsed_calls_have_words(line@, replies@);
                diagnostics::diagnostics_can_be_drawn(line@, replies@);
            }
            if outcome.errors.len() > 0 {
                proof {
                    assert forall|k: int| 0 <= k < outcome.errors@.len() implies error::drawable(
                        (#[trigger] outcome.errors@[k])@,
                        line@,
                    ) by {
                        assert(outcome@.errors[k] == outcome.errors@[k]@);
                    }
                }
                return Ok(Begun::Refused(outcome.errors));
            }
            let pipelines = outcome.line.pipelines;
            proof {
                let views = outcome@.line.pipelines;
                assert forall|i: int| 0 <= i < pipelines@.len() implies eval::runnable(
                    (#[trigger] pipelines@[i])@.calls,
                ) by {
                    assert(views[i] == pipelines@[i]@);
                    assert(parse::calls_named(views[i].calls));
                }
                assert(eval::pipelines_view(pipelines@) =~= views);
            }
            Ok(Begun::Running(LineRun::new(pipelines)))
        },
    }
}

/// The engine after a line that could not be parsed.
pub open spec fn misparsed(
    e: EngineView,
    pane: u32,
    line: Seq<char>,
    errors: Seq<ErrorView>,
) -> EngineView {
    ended(e.emitting(chunks(pane, error_texts(errors, line))), pane, false)
}

/// The engine after a line ran: completed pipelines print even when a later one
/// failed.
pub open spec fn settled(
    e: EngineView,
    pane: u32,
    line: Seq<char>,
    texts: Seq<Seq<char>>,
    error: Option<ErrorView>,
) -> EngineView {
    let printed = e.emitting(chunks(pane, texts));
    match error {
        Some(err) => ended(
            printed.emitting(engine::output_events(pane, error::rendered(err, line))),
            pane,
            false,
        ),
        None => ended(printed, pane, true),
    }
}

/// The value of a programmatic run: the last pipeline's, null where there was
/// none.
pub open spec fn run_value(results: Seq<DataView>, error: Option<ErrorView>) -> Result<
    ValueView,
    ErrorView,
> {
    match error {
        Some(e) => Err(e),
        None => if results.len() == 0 {
            Ok(ValueView::Null)
        } else {
            Ok(results.last().value())
        },
    }
}

/// The value of a programmatic run.
pub fn final_value(results: Vec<PipelineData>, error: Option<ShellError>) -> (r: Result<
    Value,
    ShellError,
>)
    ensures
        engine::applied_value(r) == run_value(
            registry::items_view(results@),
            crate::pipeline::failure_view(error),
        ),
{
    match error {
        Some(e) => Err(e),
        None => {
            if results.len() == 0 {
                Ok(Value::Null)
            } else {
                proof {
                    assert(registry::items_view(results@).last() == results@.last()@);
                }
                Ok(results[results.len() - 1].clone().into_value())
            }
        },
    }
}

/// How a diagnostic looks in a pane. A raw write owns its formatting; a line
/// gets its ending, and an error its colour around the clean text.
pub open spec fn record_text(r: RecordView) -> Seq<char> {
    if r.raw {
        r.text
    } else {
        match r.channel {
            Channel::Log => r.text + "\n"@,
            Channel::Error => "\x1b[31m"@ + r.text + "\x1b[0m\n"@,
        }
    }
}

pub fn record_line(record: &Record) -> (r: String)
    ensures
        r@ == record_text(record@),
{
    if record.is_raw() {
        return record.text().to_owned();
    }
    match record.channel() {
        Channel::Log => {
            let mut out = record.text().to_owned();
            out.append("\n");
            out
        },
        Channel::Error => text::around("\x1b[31m", record.text(), "\x1b[0m\n"),
    }
}

/// The history of a pane's shell.
pub open spec fn history_of(m: MuxView, pane: u32) -> Seq<Seq<char>> {
    match maps::key_at(m.panes, pane) {
        Some(k) => m.panes[k].1.editor.history,
        None => Seq::empty(),
    }
}

/// The columns of a pane; a pane that is gone counts as 80 wide.
pub open spec fn width_of(m: MuxView, pane: u32) -> u16 {
    match maps::key_at(m.panes, pane) {
        Some(k) => m.panes[k].1.cols,
        None => 80,
    }
}

/// The help page of a command by its full name.
pub open spec fn page_of(entries: EntrySeq, name: Seq<char>) -> Option<Seq<char>> {
    match registry::named(entries, name) {
        Some(i) => Some(signature::help_text(entries[i].signature)),
        None => None,
    }
}

/// The host's variables that a session does not shadow.
pub open spec fn unshadowed(host: ScopeSeq, session: ScopeSeq) -> Seq<VisibleView>
    decreases host.len(),
{
    if host.len() == 0 {
        Seq::empty()
    } else {
        let out = unshadowed(host.drop_last(), session);
        let (name, v) = host.last();
        if value::lookup(session, name) is Some {
            out
        } else {
            out.push(VisibleView { name, origin: VarOrigin::Host, value: v })
        }
    }
}

pub open spec fn own_vars(session: ScopeSeq) -> Seq<VisibleView> {
    session.map_values(
        |f: (Seq<char>, ValueView)|
            VisibleView { name: f.0, origin: VarOrigin::Session, value: f.1 },
    )
}

pub open spec fn session_layer(e: EngineView, pane: u32) -> ScopeSeq {
    match model::session_with(e.mux.sessions, pane) {
        Some(i) => e.mux.sessions[i].1.vars,
        None => Seq::empty(),
    }
}

/// What the names in a pane resolve to: a shadowed host entry is dropped rather
/// than listed twice, as a name resolves to one value.
pub open spec fn listed_vars(e: EngineView, pane: u32) -> Seq<VisibleView> {
    unshadowed(e.host_vars, session_layer(e, pane)) + own_vars(session_layer(e, pane))
}

/// Every listed variable is what its name resolves to in the pane.
pub proof fn listed_vars_are_what_names_resolve_to(
    host: ScopeSeq,
    session: ScopeSeq,
    k: int,
)
    requires
        value::names_distinct(host),
        value::names_distinct(session),
        0 <= k < (unshadowed(host, session) + own_vars(session)).len(),
    ensures
        ({
            let v = (unshadowed(host, session) + own_vars(session))[k];
            value::lookup(engine::overlaid(host, session), v.name) == Some(v.value)
        }),
{
    let top = unshadowed(host, session);
    let v = (top + own_vars(session))[k];
    engine::session_values_shadow_host_values(host, session, v.name);
    value::position_is_first(session, v.name);
    if k < top.len() {
        unshadowed_is(host, session, k);
    } else {
        let i = k - top.len();
        assert(session[i].0 == v.name);
        let j = value::position(session, v.name)->0;
        if i != j {
            assert(session[i].0 != session[j].0);
        }
    }
}

proof fn unshadowed_is(host: ScopeSeq, session: ScopeSeq, k: int)
    requires
        value::names_distinct(host),
        0 <= k < unshadowed(host, session).len(),
    ensures
        value::lookup(host, unshadowed(host, session)[k].name) == Some(
            unshadowed(host, session)[k].value,
        ),
        value::lookup(session, unshadowed(host, session)[k].name) is None,
    decreases host.len(),
{
    let init = host.drop_last();
    let before = unshadowed(init, session);
    let v = unshadowed(host, session)[k];
    assert(value::names_distinct(init)) by {
        assert forall|i: int, j: int| 0 <= i < j < init.len() implies (#[trigger] init[i]).0 != (
        #[trigger] init[j]).0 by {
            assert(host[i].0 != host[j].0);
        }
    }
    value::position_is_first(host, v.name);
    if k < before.len() {
        unshadowed_is(init, session, k);
        value::position_is_first(init, v.name);
        let i = value::position(init, v.name)->0;
        assert(init[i] == host[i]);
        let j = value::position(host, v.name)->0;
        if i != j {
            assert(host[i].0 != host[j].0);
        }
    } else {
        let j = value::position(host, v.name)->0;
        assert(host[host.len() - 1].0 == v.name);
        if j != host.len() - 1 {
            assert(host[j].0 != host[host.len() - 1].0);
        }
    }
}

/// Is a name in a list of variables?
pub open spec fn is_listed(vars: Seq<VisibleView>, name: Seq<char>) -> bool {
    exists|k: int| 0 <= k < vars.len() && (#[trigger] vars[k]).name == name
}

pub open spec fn listed_once(vars: Seq<VisibleView>) -> bool {
    forall|i: int, j: int|
        0 <= i < j < vars.len() ==> (#[trigger] vars[i]).name != (#[trigger] vars[j]).name
}

proof fn unshadowed_are_distinct(host: ScopeSeq, session: ScopeSeq, name: Seq<char>)
    requires
        value::names_distinct(host),
    ensures
        listed_once(unshadowed(host, session)),
        value::lookup(host, name) is Some && value::lookup(session, name) is None ==> is_listed(
            unshadowed(host, session),
            name,
        ),
    decreases host.len(),
{
    if host.len() > 0 {
        let init = host.drop_last();
        let before = unshadowed(init, session);
        let all = unshadowed(host, session);
        assert(value::names_distinct(init)) by {
            assert forall|i: int, j: int| 0 <= i < j < init.len() implies (
            #[trigger] init[i]).0 != (#[trigger] init[j]).0 by {
                assert(host[i].0 != host[j].0);
            }
        }
        unshadowed_are_distinct(init, session, name);
        let last = host.last();
        assert forall|i: int, j: int| 0 <= i < j < all.len() implies (#[trigger] all[i]).name != (
        #[trigger] all[j]).name by {
            if j < before.len() {
                assert(all[i] == before[i] && all[j] == before[j]);
            } else {
                assert(all[i] == before[i]);
                unshadowed_is(init, session, i);
                value::position_is_first(init, all[i].name);
                let k = value::position(init, all[i].name)->0;
                assert(host[k].0 != host[host.len() - 1].0);
            }
        }
        if value::lookup(host, name) is Some && value::lookup(session, name) is None {
            value::position_is_first(host, name);
            value::position_is_first(init, name);
            let k = value::position(host, name)->0;
            if k < init.len() {
                assert(init[k].0 == name);
                let m = choose|m: int| 0 <= m < before.len() && (#[trigger] before[m]).name == name;
                assert(all[m] == before[m]);
            } else {
                assert(all[before.len() as int].name == name);
            }
        }
    }
}

/// Every name that resolves in a pane is listed, and no name twice.
pub proof fn every_visible_name_is_listed_once(
    host: ScopeSeq,
    session: ScopeSeq,
    name: Seq<char>,
)
    requires
        value::names_distinct(host),
        value::names_distinct(session),
    ensures
        listed_once(unshadowed(host, session) + own_vars(session)),
        value::lookup(engine::overlaid(host, session), name) is Some ==> is_listed(
            unshadowed(host, session) + own_vars(session),
            name,
        ),
{
    let top = unshadowed(host, session);
    let own = own_vars(session);
    let all = top + own;
    unshadowed_are_distinct(host, session, name);
    assert forall|i: int, j: int| 0 <= i < j < all.len() implies (#[trigger] all[i]).name != (
    #[trigger] all[j]).name by {
        if j < top.len() {
            assert(all[i] == top[i] && all[j] == top[j]);
        } else if i >= top.len() {
            assert(session[i - top.len()].0 != session[j - top.len()].0);
        } else {
            unshadowed_is(host, session, i);
            value::position_is_first(session, all[i].name);
            assert(session[j - top.len()].0 == all[j].name);
        }
    }
    engine::session_values_shadow_host_values(host, session, name);
    value::position_is_first(session, name);
    match value::position(session, name) {
        Some(k) => {
            assert(all[top.len() + k].name == name);
        },
        None => {
            if value::lookup(host, name) is Some {
                let m = choose|m: int| 0 <= m < top.len() && (#[trigger] top[m]).name == name;
                assert(all[m] == top[m]);
            }
        },
    }
}

/// The run that owns a pane's renderer: the last one noted.
pub open spec fn owner_of(pending: Seq<(u32, u64)>, pane: u32) -> Option<u64>
    decreases pending.len(),
{
    if pending.len() == 0 {
        None
    } else if pending.last().0 == pane {
        Some(pending.last().1)
    } else {
        owner_of(pending.drop_last(), pane)
    }
}

pub open spec fn without(pending: Seq<(u32, u64)>, pane: u32) -> Seq<(u32, u64)>
    decreases pending.len(),
{
    if pending.len() == 0 {
        Seq::empty()
    } else {
        let out = without(pending.drop_last(), pane);
        if pending.last().0 == pane {
            out
        } else {
            out.push(pending.last())
        }
    }
}

pub open spec fn owned_by(pending: Seq<(u32, u64)>, pane: u32, run_id: u64) -> Seq<(u32, u64)> {
    without(pending, pane).push((pane, run_id))
}

pub open spec fn released(pending: Seq<(u32, u64)>, pane: u32, run_id: u64) -> Seq<(u32, u64)> {
    if owner_of(pending, pane) == Some(run_id) {
        without(pending, pane)
    } else {
        pending
    }
}

proof fn owner_without(pending: Seq<(u32, u64)>, pane: u32, other: u32)
    ensures
        owner_of(without(pending, pane), other) == if other == pane {
            None
        } else {
            owner_of(pending, other)
        },
    decreases pending.len(),
{
    if pending.len() > 0 {
        owner_without(pending.drop_last(), pane, other);
        if pending.last().0 != pane {
            let out = without(pending.drop_last(), pane);
            assert(out.push(pending.last()).drop_last() =~= out);
        }
    }
}

/// A newer run owns the pane that it took over, an older run's end does not take
/// it away again, and no other pane changes hands.
pub proof fn a_newer_run_keeps_its_pane(
    pending: Seq<(u32, u64)>,
    pane: u32,
    older: u64,
    newer: u64,
    other: u32,
)
    requires
        older != newer,
        other != pane,
    ensures
        owner_of(owned_by(pending, pane, newer), pane) == Some(newer),
        owner_of(released(owned_by(pending, pane, newer), pane, older), pane) == Some(newer),
        owner_of(released(owned_by(pending, pane, newer), pane, newer), pane) is None,
        owner_of(owned_by(pending, pane, newer), other) == owner_of(pending, other),
        owner_of(released(pending, pane, older), other) == owner_of(pending, other),
{
    let base = without(pending, pane);
    let next = base.push((pane, newer));
    assert(next.drop_last() =~= base);
    owner_without(pending, pane, other);
    owner_without(next, pane, pane);
}

/// What a probe deadline does next.
#[derive(Debug)]
pub enum ProbeStep {
    Paint(String),
    Again,
    Over,
}

pub enum ProbeView {
    Paint(Seq<char>),
    Again,
    Over,
}

impl View for ProbeStep {
    type V = ProbeView;

    open spec fn view(&self) -> ProbeView {
        match self {
            ProbeStep::Paint(t) => ProbeView::Paint(t@),
            ProbeStep::Again => ProbeView::Again,
            ProbeStep::Over => ProbeView::Over,
        }
    }
}

/// A deadline reaches the renderer of the run that owns the pane, and no other.
pub open spec fn probed(
    e: EngineView,
    pane: u32,
    run_id: u64,
    c: ConsumerView,
    replies: ReplySeq,
) -> Result<(ConsumerView, Option<Seq<char>>), StopView> {
    if owner_of(e.pending, pane) == Some(run_id) {
        match stream::commit_step(c.renderer, replies) {
            Ok((after, t)) => Ok((ConsumerView { renderer: after, ..c }, t)),
            Err(stop) => Err(stop),
        }
    } else {
        Ok((c, None))
    }
}

pub open spec fn probe_over(e: EngineView, pane: u32, run_id: u64, c: ConsumerView) -> bool {
    owner_of(e.pending, pane) != Some(run_id) || c.renderer.committed is Some
}

pub open spec fn checked(
    e: EngineView,
    pane: u32,
    run_id: u64,
    c: ConsumerView,
    replies: ReplySeq,
) -> Result<(ConsumerView, ProbeView), StopView> {
    match probed(e, pane, run_id, c, replies) {
        Err(stop) => Err(stop),
        Ok((after, Some(t))) => Ok((after, ProbeView::Paint(t))),
        Ok((after, None)) => Ok(
            (
                after,
                if probe_over(e, pane, run_id, after) {
                    ProbeView::Over
                } else {
                    ProbeView::Again
                },
            ),
        ),
    }
}

impl Engine {
    pub(crate) fn emit_all(&mut self, pane: u32, texts: &Vec<String>)
        ensures
            final(self)@ == old(self)@.emitting(chunks(pane, text::texts(texts@))),
    {
        let ghost was = self@;
        let ghost all = text::texts(texts@);
        let mut i: usize = 0;
        proof {
            assert(was.emitting(chunks(pane, all.take(0))) =~= was);
        }
        while i < texts.len()
            invariant
                i <= texts@.len(),
                all == text::texts(texts@),
                self@ == was.emitting(chunks(pane, all.take(i as int))),
            decreases texts@.len() - i,
        {
            proof {
                assert(all.take(i + 1).drop_last() =~= all.take(i as int));
                assert(all.take(i + 1).last() == texts@[i as int]@);
            }
            self.emit_output(pane, texts[i].as_str());
            proof {
                assert(self@.events =~= was.events + chunks(pane, all.take(i + 1)));
                assert(self@ =~= was.emitting(chunks(pane, all.take(i + 1))));
            }
            i = i + 1;
        }
        proof {
            assert(all.take(all.len() as int) =~= all);
        }
    }

    /// Mark the pane idle, color the prompt by status, and print it. A pane
    /// that was closed mid-run (kill-pane while a task was in flight) simply
    /// produces no prompt.
    pub fn finish_pane(&mut self, pane: u32, ok: bool)
        requires
            old(self)@.wf(),
        ensures
            final(self)@ == ended(old(self)@, pane, ok),
            final(self)@.wf(),
    {
        self.rest_pane(pane, ok);
        // Through `emit_output`: the prompt opens with `\r\x1b[K`, and
        // erase-to-end-of-line fills with the current background. A command
        // that leaked a background colour would otherwise paint the shell's
        // own prompt line with it.
        let prompt = self.prompt_line(pane);
        self.emit_output(pane, prompt.as_str());
    }

    /// Mark the pane idle without a prompt: a run that was aborted never
    /// reached its own end.
    pub fn rest_pane(&mut self, pane: u32, ok: bool)
        requires
            old(self)@.wf(),
        ensures
            final(self)@ == idle(old(self)@, pane, ok),
            final(self)@.wf(),
    {
        let ghost was = self@;
        let ghost at = maps::key_at(was.mux.panes, pane);
        proof {
            maps::key_at_is_first(was.mux.panes, pane);
            if at is Some {
                assert(was.mux.panes[at->0].1.editor.wf());
            }
        }
        match self.mux.pane_mut(pane) {
            Some(p) => {
                p.running = false;
                p.editor.set_last_status(ok);
                proof {
                    let q = was.mux.panes[at->0].1;
                    let next = model::PaneView {
                        running: false,
                        editor: EditorView { last_ok: ok, ..q.editor },
                        ..q
                    };
                    soundness::changing_a_pane_keeps_order(was.mux, pane, next);
                    assert(self@ =~= engine::with_pane(was, pane, next));
                }
            },
            None => {
                proof {
                    assert(self@ =~= was);
                }
            },
        }
    }

    /// Note whether a pane has a run in flight.
    pub fn set_running(&mut self, pane: u32, running: bool)
        requires
            old(self)@.wf(),
        ensures
            final(self)@.wf(),
            final(self)@ == match maps::key_at(old(self)@.mux.panes, pane) {
                Some(k) => engine::with_pane(
                    old(self)@,
                    pane,
                    model::PaneView { running, ..old(self)@.mux.panes[k].1 },
                ),
                None => old(self)@,
            },
    {
        let ghost was = self@;
        let ghost at = maps::key_at(was.mux.panes, pane);
        proof {
            maps::key_at_is_first(was.mux.panes, pane);
            if at is Some {
                assert(was.mux.panes[at->0].1.editor.wf());
            }
        }
        match self.mux.pane_mut(pane) {
            Some(p) => {
                p.running = running;
                proof {
                    let next = model::PaneView { running, ..was.mux.panes[at->0].1 };
                    soundness::changing_a_pane_keeps_order(was.mux, pane, next);
                    assert(self@ =~= engine::with_pane(was, pane, next));
                }
            },
            None => {
                proof {
                    assert(self@ =~= was);
                }
            },
        }
    }

    /// Open the terminal: the banner and the first prompt in the active pane,
    /// and the layout.
    pub fn greet(&mut self, replies: &Replies) -> (r: Result<(), Query>)
        requires
            old(self)@.wf(),
        ensures
            final(self)@.wf(),
            match greeting(old(self)@, replies@) {
                Ok(events) => r is Ok && final(self)@ == old(self)@.emitting(events),
                Err(q) => (r matches Err(x) && x@ == q) && final(self)@ == old(self)@,
            },
    {
        let ghost was = self@;
        let snapshot = match self.snapshot(replies) {
            Ok(s) => s,
            Err(q) => {
                return Err(q);
            },
        };
        let pane: u32 = self.mux.active_pane();
        self.emit_output(pane, BANNER);
        let prompt = self.prompt_line(pane);
        self.emit_output(pane, prompt.as_str());
        let event = EngineEvent::LayoutChanged { snapshot };
        let ghost last = event@;
        self.emit(event);
        proof {
            let first = engine::output_events(pane, BANNER@);
            let second = engine::output_events(pane, engine::prompt_of(was.mux, pane));
            assert(self@.events =~= was.events + (first + second).push(last));
            assert(self@ =~= was.emitting((first + second).push(last)));
        }
        Ok(())
    }

    /// A submitted line that could not be parsed: its errors, and the prompt.
    pub fn refuse_line(&mut self, pane: u32, line: &str, errors: &Vec<ShellError>)
        requires
            old(self)@.wf(),
            forall|k: int| 0 <= k < errors@.len() ==> error::drawable((#[trigger] errors@[k])@, line@),
        ensures
            final(self)@ == misparsed(old(self)@, pane, line@, parse::errors_view(errors@)),
            final(self)@.wf(),
    {
        let mut texts: Vec<String> = Vec::new();
        let mut i: usize = 0;
        while i < errors.len()
            invariant
                i <= errors@.len(),
                texts@.len() == i,
                forall|k: int|
                    0 <= k < errors@.len() ==> error::drawable((#[trigger] errors@[k])@, line@),
                forall|k: int|
                    0 <= k < i ==> (#[trigger] texts@[k])@ == error::rendered(
                        errors@[k]@,
                        line@,
                    ),
            decreases errors@.len() - i,
        {
            texts.push(errors[i].render(line));
            i = i + 1;
        }
        proof {
            assert(text::texts(texts@) =~= error_texts(parse::errors_view(errors@), line@));
        }
        self.emit_all(pane, &texts);
        self.finish_pane(pane, false);
    }

    /// A submitted line that ran: what its completed pipelines print, the error
    /// that stopped a later one, and the prompt. Nothing is printed where the
    /// rendering needs an answer first.
    pub fn settle_line(
        &mut self,
        pane: u32,
        line: &str,
        results: &Vec<PipelineData>,
        error: &Option<ShellError>,
        width: u16,
        replies: &Replies,
    ) -> (r: Result<(), Stop>)
        requires
            old(self)@.wf(),
            error matches Some(e) ==> error::drawable(e@, line@),
        ensures
            final(self)@.wf(),
            match progress::item_texts(
                registry::items_view(results@),
                results@.len(),
                width,
                replies@,
            ) {
                Ok(texts) => r is Ok && final(self)@ == settled(
                    old(self)@,
                    pane,
                    line@,
                    texts,
                    crate::pipeline::failure_view(*error),
                ),
                Err(e) => (r matches Err(x) && x@ == e) && final(self)@ == old(self)@,
            },
    {
        let texts = match progress::print_items(results, width, replies) {
            Ok(t) => t,
            Err(e) => {
                return Err(e);
            },
        };
        self.emit_all(pane, &texts);
        match error {
            Some(err) => {
                let shown = err.render(line);
                self.emit_output(pane, shown.as_str());
                self.finish_pane(pane, false);
            },
            None => {
                self.finish_pane(pane, true);
            },
        }
        Ok(())
    }

    /// A run took over a pane's progressive renderer.
    pub fn begin_render(&mut self, pane: u32, run_id: u64)
        ensures
            final(self)@ == (EngineView {
                pending: owned_by(old(self)@.pending, pane, run_id),
                ..old(self)@
            }),
    {
        self.drop_render(pane);
        self.pending.push((pane, run_id));
    }

    /// The run ended. A pane that a newer run took over stays with that run.
    pub fn end_render(&mut self, pane: u32, run_id: u64)
        ensures
            final(self)@ == (EngineView {
                pending: released(old(self)@.pending, pane, run_id),
                ..old(self)@
            }),
    {
        if self.renders(pane, run_id) {
            self.drop_render(pane);
        }
    }

    /// Does this run own the pane's progressive renderer?
    pub fn renders(&self, pane: u32, run_id: u64) -> (r: bool)
        ensures
            r == (owner_of(self@.pending, pane) == Some(run_id)),
    {
        let n: usize = self.pending.len();
        let mut i: usize = n;
        proof {
            assert(self.pending@.take(n as int) =~= self.pending@);
        }
        while i > 0
            invariant
                i <= n,
                n == self.pending@.len(),
                owner_of(self@.pending, pane) == owner_of(self.pending@.take(i as int), pane),
            decreases i,
        {
            proof {
                assert(self.pending@.take(i as int).drop_last() =~= self.pending@.take(i - 1));
            }
            i = i - 1;
            if self.pending[i].0 == pane {
                return self.pending[i].1 == run_id;
            }
        }
        false
    }

    fn drop_render(&mut self, pane: u32)
        ensures
            final(self)@ == (EngineView {
                pending: without(old(self)@.pending, pane),
                ..old(self)@
            }),
    {
        let ghost was = self.pending@;
        let n: usize = self.pending.len();
        let mut kept: Vec<(u32, u64)> = Vec::new();
        let mut i: usize = 0;
        while i < n
            invariant
                i <= n,
                n == self.pending@.len(),
                was == self.pending@,
                kept@ == without(was.take(i as int), pane),
            decreases n - i,
        {
            proof {
                assert(was.take(i + 1).drop_last() =~= was.take(i as int));
            }
            if self.pending[i].0 != pane {
                kept.push(self.pending[i]);
            }
            i = i + 1;
        }
        proof {
            assert(was.take(n as int) =~= was);
        }
        self.pending = kept;
    }

    /// The host's probe deadline fired for `run_id`: commit whatever this
    /// pane's progressive renderer has buffered, so a slow source paints
    /// without waiting for more rows. `None` if there is nothing pending, if it
    /// already committed (reaching `PROBE_ROWS`, or a previous deadline), or —
    /// critically — if a *different* run has since taken over this pane:
    /// without the run-id check, an older run's timer would reach into a newer
    /// run's renderer, silently forcing its probe while leaving the older run's
    /// own renderer (now orphaned) unpainted.
    pub fn commit_pending_render(
        &self,
        pane: u32,
        run_id: u64,
        consumer: &mut ProgressiveConsumer,
        replies: &Replies,
    ) -> (r: Result<Option<String>, Stop>)
        ensures
            match probed(self@, pane, run_id, old(consumer)@, replies@) {
                Ok((after, t)) => (r matches Ok(x) && error::opt_text(x) == t) && final(consumer)@
                    == after,
                Err(e) => (r matches Err(x) && x@ == e) && final(consumer)@ == old(consumer)@,
            },
    {
        if self.renders(pane, run_id) {
            consumer.commit(replies)
        } else {
            Ok(None)
        }
    }

    /// Whether the host's probe deadline has nothing left to do for `run_id` in
    /// this pane: no run is pending here (finished, never started, or
    /// superseded by a different run), or its renderer already committed (via
    /// the row-count probe or a previous deadline).
    pub fn probe_settled(&self, pane: u32, run_id: u64, consumer: &ProgressiveConsumer) -> (r: bool)
        ensures
            r == probe_over(self@, pane, run_id, consumer@),
    {
        !self.renders(pane, run_id) || consumer.is_committed()
    }

    /// What the deadline of a run does: the text to paint, another deadline
    /// where the first row may still come, or nothing more.
    pub fn probe_check(
        &self,
        pane: u32,
        run_id: u64,
        consumer: &mut ProgressiveConsumer,
        replies: &Replies,
    ) -> (r: Result<ProbeStep, Stop>)
        ensures
            match checked(self@, pane, run_id, old(consumer)@, replies@) {
                Ok((after, step)) => (r matches Ok(x) && x@ == step) && final(consumer)@ == after,
                Err(e) => (r matches Err(x) && x@ == e) && final(consumer)@ == old(consumer)@,
            },
    {
        match self.commit_pending_render(pane, run_id, consumer, replies) {
            Err(e) => Err(e),
            Ok(Some(text)) => Ok(ProbeStep::Paint(text)),
            Ok(None) => {
                if self.probe_settled(pane, run_id, consumer) {
                    Ok(ProbeStep::Over)
                } else {
                    Ok(ProbeStep::Again)
                }
            },
        }
    }

    /// Print a command's diagnostic in a pane.
    pub fn write_record(&mut self, pane: u32, record: &Record)
        ensures
            final(self)@ == old(self)@.emitting(
                engine::output_events(pane, record_text(record@)),
            ),
    {
        let line = record_line(record);
        self.emit_output(pane, line.as_str());
    }

    /// The pane's history, newest last.
    pub fn history(&self, pane: u32) -> (r: Vec<String>)
        ensures
            text::texts(r@) == history_of(self@.mux, pane),
    {
        match self.mux.pane(pane) {
            Some(p) => text::clone_texts(p.editor.history()),
            None => {
                let none: Vec<String> = Vec::new();
                proof {
                    assert(text::texts(none@) =~= Seq::empty());
                }
                none
            },
        }
    }

    /// The columns of a pane.
    pub fn width(&self, pane: u32) -> (r: u16)
        ensures
            r == width_of(self@.mux, pane),
    {
        match self.mux.pane(pane) {
            Some(p) => p.cols,
            None => 80,
        }
    }

    /// `clear`: wipe the screen of a pane.
    pub fn request_clear(&mut self, pane: u32)
        ensures
            final(self)@ == old(self)@.emitting(
                engine::output_events(pane, "\x1b[2J\x1b[H"@),
            ),
    {
        self.emit_output(pane, "\x1b[2J\x1b[H");
    }

    /// (name, summary) for every registered command, sorted by name.
    pub fn help_overview(&self) -> (r: Vec<(String, String)>)
        ensures
            signature::subs_view(r@) == registry::by_name(
                registry::listed(self@.entries, Seq::empty()),
            ),
    {
        self.registry.overview()
    }

    /// Rendered help text for a command, if it exists.
    pub fn help_for(&self, name: &str) -> (r: Option<String>)
        ensures
            error::opt_text(r) == page_of(self@.entries, name@),
    {
        match self.registry.get(name) {
            Some(e) => Some(e.signature.render_help()),
            None => None,
        }
    }

    /// The variables that a pane sees, each once, with where it comes from.
    pub fn visible_vars(&self, pane: u32) -> (r: Vec<VisibleVar>)
        requires
            self@.wf(),
        ensures
            registry::visibles_view(r@) == listed_vars(self@, pane),
    {
        let session = self.layer(pane);
        let ghost sv = session@;
        let host = self.host_vars();
        let ghost hv = host@;
        let mut out: Vec<VisibleVar> = Vec::new();
        let n: usize = host.len();
        let mut i: usize = 0;
        proof {
            assert(registry::visibles_view(out@) =~= unshadowed(hv.take(0), sv));
        }
        while i < n
            invariant
                i <= n,
                n == hv.len(),
                hv == host@,
                sv == session@,
                registry::visibles_view(out@) == unshadowed(hv.take(i as int), sv),
            decreases n - i,
        {
            proof {
                assert(hv.take(i + 1).drop_last() =~= hv.take(i as int));
                assert(hv.take(i + 1).last() == hv[i as int]);
            }
            let name = host.name(i);
            if session.get(name.as_str()).is_none() {
                let ghost before = registry::visibles_view(out@);
                let v = VisibleVar {
                    name: name.clone(),
                    origin: VarOrigin::Host,
                    value: host.at(i).clone(),
                };
                let ghost vv = v@;
                out.push(v);
                proof {
                    assert(registry::visibles_view(out@) =~= before.push(vv));
                }
            }
            i = i + 1;
        }
        let ghost top = registry::visibles_view(out@);
        proof {
            assert(hv.take(n as int) =~= hv);
            assert(top + own_vars(sv.take(0)) =~= top);
        }
        let m: usize = session.len();
        let mut k: usize = 0;
        while k < m
            invariant
                k <= m,
                m == sv.len(),
                sv == session@,
                registry::visibles_view(out@) == top + own_vars(sv.take(k as int)),
            decreases m - k,
        {
            let ghost before = registry::visibles_view(out@);
            let v = VisibleVar {
                name: session.name(k).clone(),
                origin: VarOrigin::Session,
                value: session.at(k).clone(),
            };
            let ghost vv = v@;
            out.push(v);
            proof {
                assert(registry::visibles_view(out@) =~= before.push(vv));
                assert(before.push(vv) =~= top + own_vars(sv.take(k + 1)));
            }
            k = k + 1;
        }
        proof {
            assert(sv.take(m as int) =~= sv);
        }
        out
    }

    fn layer(&self, pane: u32) -> (r: Scope)
        requires
            self@.wf(),
        ensures
            r@ == session_layer(self@, pane),
    {
        match self.mux.session_of_pane(pane) {
            None => {
                let none = Scope::new();
                proof {
                    assert(none@ =~= Seq::empty());
                }
                none
            },
            Some(sid) => {
                let ghost i = model::session_with(self@.mux.sessions, pane)->0;
                proof {
                    soundness::session_with_is(self@.mux.sessions, pane);
                    assert(soundness::session_ok(self@.mux.sessions[i], self@.mux.next_id));
                    maps::key_at_index(self@.mux.sessions, i);
                }
                self.mux.session(sid).unwrap().vars.clone()
            },
        }
    }
}

} // verus!
