//! The engine: the mux tree (sessions → windows → panes), the command
//! registry, and the outgoing event queue.
//!
//! Code holding the engine never invokes the host callback; events are queued,
//! and the program around the library takes them out with `drain_events`.

use crate::ask::{Query, QueryView, Replies, ReplySeq};
use crate::builtins;
use crate::editor;
use crate::editor::Effects;
use crate::error::{ErrorKind, ErrorView, ShellError};
use crate::expr::{Scope, ScopeSeq};
use crate::lex;
use crate::mux;
use crate::mux::keys;
use crate::mux::layout;
use crate::mux::layout::Rect;
use crate::mux::maps;
use crate::mux::model;
use crate::mux::model::{MuxView, OutcomeView, SessionView};
use crate::mux::soundness;
use crate::mux::tree::Dir;
use crate::mux::{FocusDir, Mux, MuxOutcome, SessionId};
use crate::protocol;
use crate::protocol::{
    EngineEvent, EventView, HostMsg, InfoView, LayoutSnapshot, PaneInfo, SessionInfo, SnapshotView,
    WindowInfo,
};
use crate::registry::{CommandRegistry, EntrySeq, MuxAction, MuxActionView};
use crate::text;
use crate::value;
use crate::value::{Fields, Value, ValueView};
use vstd::prelude::*;

verus! {

broadcast use crate::value::value_view_cases;

/// SGR reset. Prefixed to every chunk of pane output — see `emit_output`.
pub open spec fn reset_text() -> Seq<char> {
    "\x1b[0m"@
}

/// A text with every line ending as CR LF, from a place on.
pub open spec fn crlf_from(s: Seq<char>, i: int) -> Seq<char>
    decreases s.len() - i,
{
    if !(0 <= i < s.len()) {
        Seq::empty()
    } else if s[i] == '\r' && i + 1 < s.len() && s[i + 1] == '\n' {
        seq!['\r', '\n'] + crlf_from(s, i + 2)
    } else if s[i] == '\n' {
        seq!['\r', '\n'] + crlf_from(s, i + 1)
    } else {
        seq![s[i]] + crlf_from(s, i + 1)
    }
}

/// Normalize then convert to CRLF. Lone `\r` (cursor-to-column-0 control)
/// is preserved.
pub fn crlf(s: &str) -> (r: String)
    ensures
        r@ == crlf_from(s@, 0),
{
    let chars = text::to_chars(s);
    let n: usize = chars.len();
    let mut out = String::new();
    let mut i: usize = 0;
    proof {
        assert(out@ + crlf_from(s@, 0) =~= crlf_from(s@, 0));
    }
    while i < n
        invariant
            i <= n,
            n == chars@.len(),
            chars@ == s@,
            out@ + crlf_from(s@, i as int) == crlf_from(s@, 0),
        decreases n - i,
    {
        let ghost before = out@;
        let ghost rest = crlf_from(s@, i as int);
        if chars[i] == '\r' && i + 1 < n && chars[i + 1] == '\n' {
            out.push('\r');
            out.push('\n');
            proof {
                assert(out@ + crlf_from(s@, i + 2) =~= before + rest);
            }
            i = i + 2;
        } else if chars[i] == '\n' {
            out.push('\r');
            out.push('\n');
            proof {
                assert(out@ + crlf_from(s@, i + 1) =~= before + rest);
            }
            i = i + 1;
        } else {
            out.push(chars[i]);
            proof {
                assert(out@ + crlf_from(s@, i + 1) =~= before + rest);
            }
            i = i + 1;
        }
    }
    proof {
        assert(out@ + crlf_from(s@, n as int) =~= out@);
    }
    out
}

/// Every line feed stands behind a carriage return.
pub open spec fn crlf_only(s: Seq<char>) -> bool {
    forall|i: int| 0 <= i < s.len() && #[trigger] s[i] == '\n' ==> i > 0 && s[i - 1] == '\r'
}

/// After the conversion every line feed stands behind a carriage return, and
/// the output does not start with one.
pub proof fn converted_lines_end_in_crlf(s: Seq<char>, i: int)
    requires
        0 <= i <= s.len(),
    ensures
        crlf_only(crlf_from(s, i)),
    decreases s.len() - i,
{
    if i < s.len() {
        let out = crlf_from(s, i);
        if s[i] == '\r' && i + 1 < s.len() && s[i + 1] == '\n' {
            converted_lines_end_in_crlf(s, i + 2);
            prefix_keeps_crlf(seq!['\r', '\n'], crlf_from(s, i + 2));
        } else if s[i] == '\n' {
            converted_lines_end_in_crlf(s, i + 1);
            prefix_keeps_crlf(seq!['\r', '\n'], crlf_from(s, i + 1));
        } else {
            converted_lines_end_in_crlf(s, i + 1);
            prefix_keeps_crlf(seq![s[i]], crlf_from(s, i + 1));
        }
    }
}

proof fn prefix_keeps_crlf(a: Seq<char>, b: Seq<char>)
    requires
        crlf_only(a),
        crlf_only(b),
    ensures
        crlf_only(a + b),
{
    let s = a + b;
    assert forall|i: int| 0 <= i < s.len() && #[trigger] s[i] == '\n' implies i > 0 && s[i - 1]
        == '\r' by {
        if i < a.len() {
            assert(a[i] == '\n');
        } else {
            assert(b[i - a.len()] == '\n');
        }
    }
}

/// Converting converted text changes nothing.
pub proof fn conversion_is_idempotent(s: Seq<char>, i: int)
    requires
        0 <= i <= s.len(),
        crlf_only(s),
        i > 0 ==> !(s[i - 1] == '\r' && i < s.len() && s[i] == '\n'),
    ensures
        crlf_from(s, i) == s.skip(i),
    decreases s.len() - i,
{
    if i < s.len() {
        if s[i] == '\r' && i + 1 < s.len() && s[i + 1] == '\n' {
            conversion_is_idempotent(s, i + 2);
            assert(s.skip(i) =~= seq!['\r', '\n'] + s.skip(i + 2));
        } else {
            assert(s[i] != '\n');
            conversion_is_idempotent(s, i + 1);
            assert(s.skip(i) =~= seq![s[i]] + s.skip(i + 1));
        }
    } else {
        assert(s.skip(i) =~= Seq::empty());
    }
}

/// Output for a pane as an event: none where there is nothing to write, else
/// reset-prefixed and with CRLF line endings.
pub open spec fn output_events(pane: u32, s: Seq<char>) -> Seq<EventView> {
    if s.len() == 0 {
        Seq::empty()
    } else {
        seq![EventView::PaneOutput { pane, data: reset_text() + crlf_from(s, 0) }]
    }
}

/// Every chunk of pane output starts with a reset, so that no command's
/// styling can bleed into what the engine paints.
pub proof fn output_is_reset_first(pane: u32, s: Seq<char>, k: int)
    requires
        0 <= k < output_events(pane, s).len(),
    ensures
        output_events(pane, s)[k] matches EventView::PaneOutput { data, .. } && text::starts_with(
            data,
            reset_text(),
        ),
{
    let data = reset_text() + crlf_from(s, 0);
    assert(data.subrange(0, reset_text().len() as int) =~= reset_text());
}

pub struct Engine {
    pub registry: CommandRegistry,
    pub mux: Mux,
    /// Supplied by the host: values injected as `$name`, visible to every
    /// session. Sessions keep their own `vars`, which win on collision —
    /// see `scope_for_pane`.
    pub host_vars: Scope,
    pub prefix_armed: bool,
    pub events: Vec<EngineEvent>,
    /// The run that owns a pane's progressive renderer.
    ///
    /// A second line submitted while the first is still streaming replaces
    /// this entry for the pane, so the run id tells "this is still my
    /// renderer" from "a newer run took over this pane" — otherwise an older
    /// run's deadline would silently drive the newer run's renderer and
    /// abandon its own.
    pub pending: Vec<(u32, u64)>,
}

#[verifier::ext_equal]
pub struct EngineView {
    pub entries: EntrySeq,
    pub mux: MuxView,
    pub host_vars: ScopeSeq,
    pub prefix_armed: bool,
    pub events: Seq<EventView>,
    pub pending: Seq<(u32, u64)>,
}

impl View for Engine {
    type V = EngineView;

    open spec fn view(&self) -> EngineView {
        EngineView {
            entries: self.registry@,
            mux: self.mux@,
            host_vars: self.host_vars@,
            prefix_armed: self.prefix_armed,
            events: protocol::events_view(self.events@),
            pending: self.pending@,
        }
    }
}

impl EngineView {
    /// What holds of an engine at any time.
    pub open spec fn wf(self) -> bool {
        self.mux.wf()
    }

    pub open spec fn emitting(self, more: Seq<EventView>) -> EngineView {
        EngineView { events: self.events + more, ..self }
    }
}

/// What `handle_msg` wants the host to do after the borrow closes.
#[derive(Debug)]
pub struct MsgResult {
    /// Evaluate this command line in this pane (prefix keymap hit).
    pub run: Option<(u32, String)>,
    /// Abort any in-flight tasks for these panes (they closed).
    pub closed_panes: Vec<u32>,
}

pub struct MsgResultView {
    pub run: Option<(u32, Seq<char>)>,
    pub closed_panes: Seq<u32>,
}

impl Default for MsgResult {
    fn default() -> (r: Self)
        ensures
            r@.run is None,
            r@.closed_panes == Seq::<u32>::empty(),
    {
        MsgResult { run: None, closed_panes: Vec::new() }
    }
}

impl View for MsgResult {
    type V = MsgResultView;

    open spec fn view(&self) -> MsgResultView {
        MsgResultView {
            run: match self.run {
                Some((pane, line)) => Some((pane, line@)),
                None => None,
            },
            closed_panes: self.closed_panes@,
        }
    }
}

/// Nothing to do.
pub open spec fn no_result() -> MsgResultView {
    MsgResultView { run: None, closed_panes: Seq::empty() }
}

/// A name that the lexer could not parse.
pub open spec fn bad_name(name: Seq<char>) -> ErrorView {
    ErrorView::bare(
        ErrorKind::Runtime,
        "`"@ + name + "` is not a valid variable name: use letters, digits and `_`"@,
    )
}

pub open spec fn no_session(id: u32) -> ErrorView {
    ErrorView::bare(ErrorKind::Runtime, "no session with id "@ + text::numeral(id as nat))
}

fn bad_name_error(name: &str) -> (r: ShellError)
    ensures
        r@ == bad_name(name@),
{
    let msg = text::around(
        "`",
        name,
        "` is not a valid variable name: use letters, digits and `_`",
    );
    ShellError::runtime(msg.as_str())
}

fn no_session_error(id: u32) -> (r: ShellError)
    ensures
        r@ == no_session(id),
{
    let mut msg = "no session with id ".to_owned();
    text::push_number(&mut msg, id as u64);
    ShellError::runtime(msg.as_str())
}

/// The engine's variables after a session's layer changed.
pub open spec fn with_vars(e: EngineView, session: u32, vars: ScopeSeq) -> EngineView {
    let i = maps::key_at(e.mux.sessions, session)->0;
    EngineView {
        mux: MuxView {
            sessions: e.mux.sessions.update(
                i,
                (session, SessionView { vars, ..e.mux.sessions[i].1 }),
            ),
            ..e.mux
        },
        ..e
    }
}

pub open spec fn vars_of(e: EngineView, session: u32) -> ScopeSeq {
    e.mux.sessions[maps::key_at(e.mux.sessions, session)->0].1.vars
}

/// One scope over another: the upper one wins.
pub open spec fn overlaid(under: ScopeSeq, over: ScopeSeq) -> ScopeSeq
    decreases over.len(),
{
    if over.len() == 0 {
        under
    } else {
        value::inserted(overlaid(under, over.drop_last()), over.last().0, over.last().1)
    }
}

/// The variables that a pipeline in a pane can see: the host's underneath, its
/// session's on top.
pub open spec fn visible_scope(e: EngineView, pane: u32) -> ScopeSeq {
    match model::session_with(e.mux.sessions, pane) {
        Some(i) => overlaid(e.host_vars, e.mux.sessions[i].1.vars),
        None => e.host_vars,
    }
}

/// A session's own value wins over the host's; a name that the session does
/// not set is the host's.
pub proof fn session_values_shadow_host_values(
    under: ScopeSeq,
    over: ScopeSeq,
    name: Seq<char>,
)
    requires
        value::names_distinct(under),
        value::names_distinct(over),
    ensures
        value::lookup(overlaid(under, over), name) == match value::lookup(over, name) {
            Some(v) => Some(v),
            None => value::lookup(under, name),
        },
        value::names_distinct(overlaid(under, over)),
    decreases over.len(),
{
    if over.len() > 0 {
        let rest = over.drop_last();
        let last = over.last();
        assert(value::names_distinct(rest)) by {
            assert forall|i: int, j: int| 0 <= i < j < rest.len() implies (#[trigger] rest[i]).0
                != (#[trigger] rest[j]).0 by {
                assert(over[i].0 != over[j].0);
            }
        }
        session_values_shadow_host_values(under, rest, name);
        session_values_shadow_host_values(under, rest, last.0);
        let other = if name == last.0 {
            last.0.push('_')
        } else {
            name
        };
        assert(last.0.push('_').len() != last.0.len());
        value::fields_behave_as_a_map(overlaid(under, rest), last.0, last.1, other);
        value::position_is_first(over, name);
        value::position_is_first(rest, name);
        if name == last.0 {
            assert(over[over.len() - 1] == last);
            match value::position(rest, name) {
                Some(i) => {
                    assert(rest[i] == over[i]);
                },
                None => {},
            }
        } else {
            match value::position(rest, name) {
                Some(i) => {
                    assert(over[i] == rest[i]);
                },
                None => {},
            }
        }
    }
}

/// The line that redraws a pane's prompt; empty for a pane that is gone.
pub open spec fn prompt_of(m: MuxView, pane: u32) -> Seq<char> {
    match maps::key_at(m.panes, pane) {
        Some(k) => editor::redrawn(m.panes[k].1.editor),
        None => Seq::empty(),
    }
}

pub open spec fn session_infos(m: MuxView) -> Seq<InfoView> {
    m.sessions.map_values(
        |s: (u32, SessionView)|
            InfoView { id: s.1.id, name: s.1.name, active: s.1.id == m.active_session },
    )
}

pub open spec fn window_infos(s: SessionView) -> Seq<InfoView> {
    s.windows.map_values(
        |w: (u32, model::WindowView)|
            InfoView { id: w.1.id, name: w.1.name, active: w.1.id == s.active_window },
    )
}

pub open spec fn pane_infos(rects: Seq<layout::Placed>, active: u32) -> Seq<PaneInfo> {
    rects.map_values(
        |r: layout::Placed| PaneInfo { pane: r.0, rect: r.1, active: r.0 == active },
    )
}

/// The picture of the active session, with the list of all of them.
pub open spec fn pictured(m: MuxView, replies: ReplySeq) -> Result<SnapshotView, QueryView> {
    let w = model::window_of(m);
    match mux::window_rects(w, Rect::whole(), replies) {
        Err(q) => Err(q),
        Ok(rects) => Ok(
            SnapshotView {
                sessions: session_infos(m),
                windows: window_infos(model::session_of(m)),
                panes: pane_infos(rects, w.active_pane),
                active_pane: w.active_pane,
                zoomed: w.zoomed,
            },
        ),
    }
}

/// The events of opened panes: each gets a prompt, to be usable.
pub open spec fn opened_events(m: MuxView, panes: Seq<u32>) -> Seq<EventView>
    decreases panes.len(),
{
    if panes.len() == 0 {
        Seq::empty()
    } else {
        opened_events(m, panes.drop_last()) + (seq![EventView::PaneOpened { pane: panes.last() }]
            + output_events(panes.last(), prompt_of(m, panes.last())))
    }
}

pub open spec fn closed_events(panes: Seq<u32>) -> Seq<EventView> {
    panes.map_values(|pane: u32| EventView::PaneClosed { pane })
}

pub open spec fn session_events(sessions: Seq<u32>) -> Seq<EventView> {
    sessions.map_values(|session: u32| EventView::SessionClosed { session })
}

/// What a mutation of the multiplexer tells the host.
pub open spec fn outcome_events(m: MuxView, o: OutcomeView, replies: ReplySeq) -> Result<
    Seq<EventView>,
    QueryView,
> {
    let first = opened_events(m, o.opened_panes) + closed_events(o.closed_panes) + session_events(
        o.closed_sessions,
    );
    if o.layout_changed {
        match pictured(m, replies) {
            Err(q) => Err(q),
            Ok(snapshot) => Ok(first.push(EventView::LayoutChanged { snapshot })),
        }
    } else {
        Ok(first)
    }
}

/// A row of the session list.
pub open spec fn session_row(s: SessionView, active: u32) -> ValueView {
    ValueView::Record(
        seq![
            ("name"@, ValueView::Str(s.name)),
            ("windows"@, ValueView::Int(s.windows.len() as i64)),
            ("active"@, ValueView::Bool(s.id == active)),
        ],
    )
}

pub open spec fn session_rows(m: MuxView) -> Seq<ValueView> {
    m.sessions.map_values(|s: (u32, SessionView)| session_row(s.1, m.active_session))
}

/// The direction that a word stands for.
pub open spec fn direction(word: Seq<char>) -> Option<FocusDir> {
    if word == "next"@ {
        Some(FocusDir::Next)
    } else if word == "left"@ {
        Some(FocusDir::Left)
    } else if word == "right"@ {
        Some(FocusDir::Right)
    } else if word == "up"@ {
        Some(FocusDir::Up)
    } else if word == "down"@ {
        Some(FocusDir::Down)
    } else {
        None
    }
}

/// What an action comes to: the multiplexer, the command's value or error, and
/// what changed.
pub struct AppliedView {
    pub mux: MuxView,
    pub value: Result<ValueView, ErrorView>,
    pub outcome: OutcomeView,
}

pub open spec fn quietly(mux: MuxView, outcome: OutcomeView) -> AppliedView {
    AppliedView { mux, value: Ok(ValueView::Null), outcome }
}

pub open spec fn refused(mux: MuxView, e: ErrorView) -> AppliedView {
    AppliedView { mux, value: Err(e), outcome: OutcomeView::none() }
}

pub open spec fn mux_applied(m: MuxView, action: MuxActionView, replies: ReplySeq) -> Result<
    AppliedView,
    QueryView,
> {
    match action {
        MuxActionView::SplitRight => Ok(
            quietly(model::split_done(m, Dir::Row), OutcomeView::opened(m.next_id)),
        ),
        MuxActionView::SplitDown => Ok(
            quietly(model::split_done(m, Dir::Col), OutcomeView::opened(m.next_id)),
        ),
        MuxActionView::WindowNew => Ok(
            quietly(model::window_added(m), OutcomeView::opened(m.next_id)),
        ),
        MuxActionView::WindowNext => Ok(
            quietly(model::window_cycled(m, true), OutcomeView::changed()),
        ),
        MuxActionView::WindowPrev => Ok(
            quietly(model::window_cycled(m, false), OutcomeView::changed()),
        ),
        MuxActionView::KillPane => match model::killed(m, replies) {
            Err(q) => Err(q),
            Ok((n, o)) => Ok(quietly(n, o)),
        },
        MuxActionView::Focus(word) => match direction(word) {
            None => Ok(
                refused(
                    m,
                    ErrorView::bare(
                        ErrorKind::Runtime,
                        "unknown focus direction `"@ + word + "`"@,
                    ).helped("use next, left, right, up or down"@),
                ),
            ),
            Some(dir) => match model::focus_moved(m, dir, replies) {
                Err(q) => Err(q),
                Ok((n, o)) => Ok(quietly(n, o)),
            },
        },
        MuxActionView::Zoom => Ok(quietly(model::zoom_toggled(m), OutcomeView::changed())),
        MuxActionView::Hide => Ok(quietly(m, OutcomeView::none())),
        MuxActionView::SessionNew { name } => Ok(
            quietly(model::session_opened(m, name), OutcomeView::opened(m.next_id)),
        ),
        MuxActionView::SessionList => Ok(
            AppliedView {
                mux: m,
                value: Ok(ValueView::List(session_rows(m))),
                outcome: OutcomeView::none(),
            },
        ),
        MuxActionView::SessionSwitch { name } => match model::session_named(m.sessions, name) {
            Some(i) => Ok(
                quietly(
                    MuxView { active_session: m.sessions[i].1.id, ..m },
                    OutcomeView::changed(),
                ),
            ),
            None => Ok(
                refused(
                    m,
                    ErrorView::bare(
                        ErrorKind::Runtime,
                        "no session named `"@ + name + "`"@,
                    ).helped("run `session list` to see sessions"@),
                ),
            ),
        },
        MuxActionView::SessionNext => Ok(
            quietly(model::session_cycled(m, true), OutcomeView::changed()),
        ),
        MuxActionView::SessionPrev => Ok(
            quietly(model::session_cycled(m, false), OutcomeView::changed()),
        ),
    }
}

/// Is this an action on a direction or a session that there is not?
pub open spec fn has_no_object(m: MuxView, action: MuxActionView) -> bool {
    match action {
        MuxActionView::Focus(word) => direction(word) is None,
        MuxActionView::SessionSwitch { name } => model::session_named(m.sessions, name) is None,
        _ => false,
    }
}

/// An action is refused exactly where its direction or its session does not
/// exist. The refusal is a runtime error with advice; it leaves the multiplexer as
/// it is, closes no pane, and tells the host nothing.
pub proof fn refused_actions_change_nothing(m: MuxView, action: MuxActionView, replies: ReplySeq)
    ensures
        has_no_object(m, action) ==> mux_applied(m, action, replies) is Ok,
        mux_applied(m, action, replies) matches Ok(a) ==> {
            &&& a.value is Err <==> has_no_object(m, action)
            &&& a.value matches Err(e) ==> {
                &&& e.kind == ErrorKind::Runtime
                &&& e.help is Some
                &&& a.mux == m
                &&& a.outcome == OutcomeView::none()
                &&& outcome_events(a.mux, a.outcome, replies) matches Ok(more) && more.len() == 0
                &&& hide_events(action).len() == 0
            }
        },
{
}

/// The panes that some events report as closed, in their order.
pub open spec fn told_closed(events: Seq<EventView>) -> Seq<u32>
    decreases events.len(),
{
    if events.len() == 0 {
        Seq::empty()
    } else {
        match events.last() {
            EventView::PaneClosed { pane } => told_closed(events.drop_last()).push(pane),
            _ => told_closed(events.drop_last()),
        }
    }
}

proof fn told_closed_concat(a: Seq<EventView>, b: Seq<EventView>)
    ensures
        told_closed(a + b) == told_closed(a) + told_closed(b),
    decreases b.len(),
{
    if b.len() == 0 {
        assert(a + b =~= a);
        assert(told_closed(a) + told_closed(b) =~= told_closed(a));
    } else {
        assert((a + b).drop_last() =~= a + b.drop_last());
        told_closed_concat(a, b.drop_last());
        assert(told_closed(a + b) =~= told_closed(a) + told_closed(b));
    }
}

proof fn opening_tells_of_no_closing(m: MuxView, panes: Seq<u32>)
    ensures
        told_closed(opened_events(m, panes)).len() == 0,
    decreases panes.len(),
{
    if panes.len() > 0 {
        opening_tells_of_no_closing(m, panes.drop_last());
        let more = seq![EventView::PaneOpened { pane: panes.last() }] + output_events(
            panes.last(),
            prompt_of(m, panes.last()),
        );
        told_closed_concat(opened_events(m, panes.drop_last()), more);
        reveal_with_fuel(told_closed, 3);
        assert(opened_events(m, panes) =~= opened_events(m, panes.drop_last()) + more);
        assert(told_closed(more).len() == 0);
    }
}

proof fn closing_tells_each_pane(panes: Seq<u32>)
    ensures
        told_closed(closed_events(panes)) == panes,
    decreases panes.len(),
{
    if panes.len() > 0 {
        closing_tells_each_pane(panes.drop_last());
        assert(closed_events(panes).drop_last() =~= closed_events(panes.drop_last()));
        assert(panes.drop_last().push(panes.last()) =~= panes);
    } else {
        assert(told_closed(closed_events(panes)) =~= panes);
    }
}

proof fn ending_sessions_tells_of_no_pane(sessions: Seq<u32>)
    ensures
        told_closed(session_events(sessions)).len() == 0,
    decreases sessions.len(),
{
    if sessions.len() > 0 {
        ending_sessions_tells_of_no_pane(sessions.drop_last());
        assert(session_events(sessions).drop_last() =~= session_events(sessions.drop_last()));
    }
}

/// Whatever a mutation closes, the host is told: each closed pane is reported
/// once, in the order in which they closed, and no other pane is.
pub proof fn every_closed_pane_is_told(m: MuxView, o: OutcomeView, replies: ReplySeq)
    ensures
        outcome_events(m, o, replies) matches Ok(more) ==> told_closed(more) == o.closed_panes,
{
    let opened = opened_events(m, o.opened_panes);
    let closed = closed_events(o.closed_panes);
    let ended = session_events(o.closed_sessions);
    opening_tells_of_no_closing(m, o.opened_panes);
    closing_tells_each_pane(o.closed_panes);
    ending_sessions_tells_of_no_pane(o.closed_sessions);
    told_closed_concat(opened, closed);
    told_closed_concat(opened + closed, ended);
    let first = opened + closed + ended;
    assert(told_closed(first) =~= o.closed_panes);
    match outcome_events(m, o, replies) {
        Ok(more) => {
            if o.layout_changed {
                assert(more.drop_last() =~= first);
            }
        },
        Err(_) => {},
    }
}

/// A value of a command on the multiplexer, and what changed.
struct Applied {
    value: Result<Value, ShellError>,
    outcome: MuxOutcome,
}

pub open spec fn applied_value(r: Result<Value, ShellError>) -> Result<ValueView, ErrorView> {
    match r {
        Ok(v) => Ok(v@),
        Err(e) => Err(e@),
    }
}

fn quiet(outcome: MuxOutcome) -> (r: Applied)
    ensures
        applied_value(r.value) == Ok::<ValueView, ErrorView>(ValueView::Null),
        r.outcome@ == outcome@,
{
    Applied { value: Ok(Value::Null), outcome }
}

fn refusal(e: ShellError) -> (r: Applied)
    ensures
        applied_value(r.value) == Err::<ValueView, ErrorView>(e@),
        r.outcome@ == OutcomeView::none(),
{
    Applied { value: Err(e), outcome: MuxOutcome::none() }
}

fn read_direction(word: &str) -> (r: Option<FocusDir>)
    ensures
        r == direction(word@),
{
    if text::same_text(word, "next") {
        Some(FocusDir::Next)
    } else if text::same_text(word, "left") {
        Some(FocusDir::Left)
    } else if text::same_text(word, "right") {
        Some(FocusDir::Right)
    } else if text::same_text(word, "up") {
        Some(FocusDir::Up)
    } else if text::same_text(word, "down") {
        Some(FocusDir::Down)
    } else {
        None
    }
}

fn row_of(name: &String, windows: usize, active: bool) -> (r: Value)
    ensures
        r@ == ValueView::Record(
            seq![
                ("name"@, ValueView::Str(name@)),
                ("windows"@, ValueView::Int(windows as i64)),
                ("active"@, ValueView::Bool(active)),
            ],
        ),
{
    let mut fields = Fields::new();
    let ghost none = fields@;
    let a = Value::Str(name.clone());
    let b = Value::Int(windows as i64);
    let c = Value::Bool(active);
    fields.insert("name".to_owned(), a);
    let ghost one = fields@;
    fields.insert("windows".to_owned(), b);
    let ghost two = fields@;
    fields.insert("active".to_owned(), c);
    proof {
        reveal_strlit("name");
        reveal_strlit("windows");
        reveal_strlit("active");
        assert("name"@ != "windows"@) by {
            assert("name"@[0] == 'n' && "windows"@[0] == 'w');
        }
        assert("name"@ != "active"@ && "windows"@ != "active"@) by {
            assert("active"@[0] == 'a' && "name"@[0] == 'n' && "windows"@[0] == 'w');
        }
        assert(none.len() == 0);
        value::position_is_first(none, "name"@);
        assert(one =~= seq![("name"@, ValueView::Str(name@))]);
        value::position_is_first(one, "windows"@);
        assert(two =~= seq![
            ("name"@, ValueView::Str(name@)),
            ("windows"@, ValueView::Int(windows as i64)),
        ]);
        value::position_is_first(two, "active"@);
        assert(fields@ =~= seq![
            ("name"@, ValueView::Str(name@)),
            ("windows"@, ValueView::Int(windows as i64)),
            ("active"@, ValueView::Bool(active)),
        ]);
    }
    Value::Record(fields)
}

impl Default for Engine {
    fn default() -> (r: Self)
        ensures
            r@ == (EngineView {
                entries: builtins::builtin_entries(),
                mux: model::started(),
                host_vars: Seq::empty(),
                prefix_armed: false,
                events: Seq::empty(),
                pending: Seq::empty(),
            }),
            r@.wf(),
    {
        Engine::new()
    }
}

impl Engine {
    pub fn new() -> (r: Self)
        ensures
            r@ == (EngineView {
                entries: builtins::builtin_entries(),
                mux: model::started(),
                host_vars: Seq::empty(),
                prefix_armed: false,
                events: Seq::empty(),
                pending: Seq::empty(),
            }),
            r@.wf(),
    {
        let mut registry = CommandRegistry::new();
        builtins::register_all(&mut registry);
        let r = Engine {
            registry,
            mux: Mux::new(),
            host_vars: Fields::new(),
            prefix_armed: false,
            events: Vec::new(),
            pending: Vec::new(),
        };
        proof {
            assert(r@.entries =~= builtins::builtin_entries());
            assert(r@.events =~= Seq::empty());
            assert(r@.host_vars =~= Seq::empty());
        }
        r
    }

    /// Inject a value the shell will resolve as `$name`.
    ///
    /// Rejects a name the lexer could not parse, rather than storing
    /// something unreachable: `is_valid_var_name` is the same rule the
    /// lexer applies, so anything accepted here is referenceable.
    pub fn set_host_var(&mut self, name: &str, value: Value) -> (r: Result<(), ShellError>)
        ensures
            if lex::valid_var_name(name@) {
                r is Ok && final(self)@ == (EngineView {
                    host_vars: value::inserted(old(self)@.host_vars, name@, value@),
                    ..old(self)@
                })
            } else {
                (r matches Err(e) && e@ == bad_name(name@)) && final(self)@ == old(self)@
            },
    {
        if !lex::is_valid_var_name(name) {
            return Err(bad_name_error(name));
        }
        self.host_vars.insert(name.to_owned(), value);
        Ok(())
    }

    /// Remove an injected value. Returns whether it was set, so a host can
    /// tell a real removal from a no-op without a second call.
    pub fn unset_host_var(&mut self, name: &str) -> (r: bool)
        ensures
            r == (value::lookup(old(self)@.host_vars, name@) is Some),
            final(self)@ == (EngineView {
                host_vars: value::removed(old(self)@.host_vars, name@),
                ..old(self)@
            }),
    {
        self.host_vars.remove(name).is_some()
    }

    pub fn host_var(&self, name: &str) -> (r: Option<&Value>)
        ensures
            match r {
                Some(v) => value::lookup(self@.host_vars, name@) == Some(v@),
                None => value::lookup(self@.host_vars, name@) is None,
            },
    {
        self.host_vars.get(name)
    }

    /// The host layer alone. `scope_for_pane` is what merges it with a
    /// session's own variables.
    pub fn host_vars(&self) -> (r: &Scope)
        ensures
            r@ == self@.host_vars,
    {
        &self.host_vars
    }

    /// Inject a value visible only in `session`, shadowing any host value of
    /// the same name.
    ///
    /// The id comes from the host's snapshot rather than being implied by
    /// whichever session is active: an ambient target would land the value
    /// somewhere else entirely if the user switched sessions between the
    /// host's read and its write, and nothing would say so.
    pub fn set_session_var(&mut self, session: SessionId, name: &str, value: Value) -> (r: Result<
        (),
        ShellError,
    >)
        requires
            old(self)@.wf(),
        ensures
            final(self)@.wf(),
            if !lex::valid_var_name(name@) {
                (r matches Err(e) && e@ == bad_name(name@)) && final(self)@ == old(self)@
            } else if maps::key_at(old(self)@.mux.sessions, session) is None {
                (r matches Err(e) && e@ == no_session(session)) && final(self)@ == old(self)@
            } else {
                r is Ok && final(self)@ == with_vars(
                    old(self)@,
                    session,
                    value::inserted(vars_of(old(self)@, session), name@, value@),
                )
            },
    {
        let ghost was = self@;
        if !lex::is_valid_var_name(name) {
            return Err(bad_name_error(name));
        }
        if self.mux.session(session).is_none() {
            return Err(no_session_error(session));
        }
        match self.mux.session_vars_mut(session) {
            Some(vars) => {
                vars.insert(name.to_owned(), value);
            },
            None => {},
        }
        proof {
            let vars = value::inserted(vars_of(was, session), name@, value@);
            soundness::changing_vars_keeps_order(was.mux, session, vars);
            assert(self@ =~= with_vars(was, session, vars));
        }
        Ok(())
    }

    /// Remove a session-scoped value, revealing any host value it shadowed.
    /// `Ok(false)` means the session exists but the name was not set;
    /// `Err` means the session does not exist. Keeping those distinct is
    /// the point — a host must not read "session gone" as "already unset".
    pub fn unset_session_var(&mut self, session: SessionId, name: &str) -> (r: Result<
        bool,
        ShellError,
    >)
        requires
            old(self)@.wf(),
        ensures
            final(self)@.wf(),
            if maps::key_at(old(self)@.mux.sessions, session) is None {
                (r matches Err(e) && e@ == no_session(session)) && final(self)@ == old(self)@
            } else {
                r == Ok::<bool, ShellError>(
                    value::lookup(vars_of(old(self)@, session), name@) is Some,
                ) && final(self)@ == with_vars(
                    old(self)@,
                    session,
                    value::removed(vars_of(old(self)@, session), name@),
                )
            },
    {
        let ghost was = self@;
        if self.mux.session(session).is_none() {
            return Err(no_session_error(session));
        }
        let mut found = false;
        match self.mux.session_vars_mut(session) {
            Some(vars) => {
                found = vars.remove(name).is_some();
            },
            None => {},
        }
        proof {
            let vars = value::removed(vars_of(was, session), name@);
            soundness::changing_vars_keeps_order(was.mux, session, vars);
            assert(self@ =~= with_vars(was, session, vars));
        }
        Ok(found)
    }

    /// One session's own layer, ignoring the host one.
    pub fn session_vars(&self, session: SessionId) -> (r: Result<&Scope, ShellError>)
        ensures
            match r {
                Ok(vars) => maps::key_at(self@.mux.sessions, session) is Some && vars@ == vars_of(
                    self@,
                    session,
                ),
                Err(e) => maps::key_at(self@.mux.sessions, session) is None && e@ == no_session(
                    session,
                ),
            },
    {
        match self.mux.session(session) {
            Some(s) => Ok(&s.vars),
            None => Err(no_session_error(session)),
        }
    }

    /// One session's own value, ignoring the host layer. Reads name a layer
    /// and never merge, so this answers "did I set it here?" rather than
    /// "what would `$name` be?".
    pub fn session_var(&self, session: SessionId, name: &str) -> (r: Result<
        Option<&Value>,
        ShellError,
    >)
        ensures
            match r {
                Ok(Some(v)) => maps::key_at(self@.mux.sessions, session) is Some && value::lookup(
                    vars_of(self@, session),
                    name@,
                ) == Some(v@),
                Ok(None) => maps::key_at(self@.mux.sessions, session) is Some && value::lookup(
                    vars_of(self@, session),
                    name@,
                ) is None,
                Err(e) => maps::key_at(self@.mux.sessions, session) is None && e@ == no_session(
                    session,
                ),
            },
    {
        match self.session_vars(session) {
            Ok(vars) => Ok(vars.get(name)),
            Err(e) => Err(e),
        }
    }

    /// The variables a pipeline in `pane` can see.
    ///
    /// The only place the engine derives an evaluation scope, which is why one
    /// merge here covers interactive panes, `run()`, positional arguments, flag
    /// values, and `"…$name…"` interpolation.
    ///
    /// Host underneath, session on top: a session's own value wins.
    ///
    /// Returns an owned clone, so a pipeline holds the values as they were when
    /// its line started. A `set_host_var` mid-run is invisible to it and takes
    /// effect on the next line. That is deliberate: under live lookup a single
    /// pipeline could bind one name to two values in two stages.
    pub fn scope_for_pane(&self, pane: u32) -> (r: Scope)
        requires
            self@.wf(),
        ensures
            r@ == visible_scope(self@, pane),
    {
        let mut scope = self.host_vars.clone();
        match self.mux.session_of_pane(pane) {
            None => {},
            Some(sid) => {
                let ghost i = model::session_with(self@.mux.sessions, pane)->0;
                proof {
                    soundness::session_with_is(self@.mux.sessions, pane);
                    assert(soundness::session_ok(self@.mux.sessions[i], self@.mux.next_id));
                    maps::key_at_index(self@.mux.sessions, i);
                }
                match self.mux.session(sid) {
                    Some(s) => {
                        let ghost vars = s.vars@;
                        let n: usize = s.vars.len();
                        let mut k: usize = 0;
                        while k < n
                            invariant
                                k <= n,
                                n == vars.len(),
                                vars == s.vars@,
                                scope@ == overlaid(self@.host_vars, vars.take(k as int)),
                            decreases n - k,
                        {
                            proof {
                                assert(vars.take(k + 1).drop_last() =~= vars.take(k as int));
                                assert(vars.take(k + 1).last() == vars[k as int]);
                            }
                            scope.insert(s.vars.name(k).clone(), s.vars.at(k).clone());
                            k = k + 1;
                        }
                        proof {
                            assert(vars.take(n as int) =~= vars);
                        }
                    },
                    None => {},
                }
            },
        }
        scope
    }

    /// Sync input hot path: feed raw input to the pane's editor.
    pub fn feed(&mut self, pane: u32, data: &str) -> (r: Effects)
        requires
            old(self)@.wf(),
        ensures
            final(self)@.wf(),
            match maps::key_at(old(self)@.mux.panes, pane) {
                Some(k) => {
                    let was = old(self)@.mux.panes[k].1;
                    &&& r@ == editor::fed(was.editor, data@).1
                    &&& final(self)@ == with_pane(
                        old(self)@,
                        pane,
                        model::PaneView { editor: editor::fed(was.editor, data@).0, ..was },
                    )
                },
                None => r@ == editor::no_effects() && final(self)@ == old(self)@,
            },
    {
        let ghost was = self@;
        let ghost at = maps::key_at(was.mux.panes, pane);
        proof {
            maps::key_at_is_first(was.mux.panes, pane);
            if at is Some {
                assert(was.mux.panes[at->0].1.editor.wf());
            }
        }
        match self.mux.pane_mut(pane) {
            Some(p) => {
                let fx = p.editor.feed(data);
                proof {
                    let k = at->0;
                    let next = model::PaneView {
                        editor: editor::fed(was.mux.panes[k].1.editor, data@).0,
                        ..was.mux.panes[k].1
                    };
                    soundness::changing_a_pane_keeps_order(was.mux, pane, next);
                    assert(self@ =~= with_pane(was, pane, next));
                }
                fx
            },
            None => {
                proof {
                    assert(self@ =~= was);
                }
                Effects::none()
            },
        }
    }

    pub fn resize(&mut self, pane: u32, cols: u16, rows: u16)
        requires
            old(self)@.wf(),
        ensures
            final(self)@.wf(),
            final(self)@ == match maps::key_at(old(self)@.mux.panes, pane) {
                Some(k) => with_pane(
                    old(self)@,
                    pane,
                    model::PaneView { cols, rows, ..old(self)@.mux.panes[k].1 },
                ),
                None => old(self)@,
            },
    {
        let ghost was = self@;
        let ghost at = maps::key_at(was.mux.panes, pane);
        proof {
            maps::key_at_is_first(was.mux.panes, pane);
            if at is Some {
                assert(was.mux.panes[at->0].1.editor.wf());
            }
        }
        match self.mux.pane_mut(pane) {
            Some(p) => {
                p.cols = cols;
                p.rows = rows;
                proof {
                    let k = at->0;
                    let next = model::PaneView { cols, rows, ..was.mux.panes[k].1 };
                    soundness::changing_a_pane_keeps_order(was.mux, pane, next);
                    assert(self@ =~= with_pane(was, pane, next));
                }
            },
            None => {
                proof {
                    assert(self@ =~= was);
                }
            },
        }
    }

    /// Queue pane output. `text` uses `\n` endings (or raw control
    /// sequences); it is CRLF-converted here, the single choke point.
    ///
    /// Every chunk is also reset-prefixed here rather than at each call
    /// site. A command's SGR can outlive the command — an aborted body never
    /// resumes, so its trailing reset never runs — and the engine's own
    /// paints are then drawn in the command's colours. That is not only
    /// cosmetic for the prompt: the prompt line starts with `\r\x1b[K`, and
    /// erase-to-end-of-line fills with the *current* background, so a leaked
    /// background repaints the shell's own line. Doing it at the choke point
    /// keeps the invariant one line of code instead of a reset scattered
    /// over every emitter, and means a new emitter cannot forget it.
    pub fn emit_output(&mut self, pane: u32, s: &str)
        ensures
            final(self)@ == old(self)@.emitting(output_events(pane, s@)),
    {
        if s.is_empty() {
            proof {
                assert(self@ =~= old(self)@.emitting(output_events(pane, s@)));
            }
            return;
        }
        let mut data = "\x1b[0m".to_owned();
        let body = crlf(s);
        data.append(body.as_str());
        self.emit(EngineEvent::PaneOutput { pane, data });
    }

    pub fn emit(&mut self, event: EngineEvent)
        ensures
            final(self)@ == old(self)@.emitting(seq![event@]),
    {
        self.events.push(event);
        proof {
            assert(self@.events =~= old(self)@.events + seq![event@]);
            assert(self@ =~= old(self)@.emitting(seq![event@]));
        }
    }

    pub fn drain_events(&mut self) -> (r: Vec<EngineEvent>)
        ensures
            protocol::events_view(r@) == old(self)@.events,
            final(self)@ == (EngineView { events: Seq::empty(), ..old(self)@ }),
    {
        let mut out: Vec<EngineEvent> = Vec::new();
        std::mem::swap(&mut out, &mut self.events);
        proof {
            assert(self@.events =~= Seq::empty());
            assert(self@ =~= EngineView { events: Seq::empty(), ..old(self)@ });
        }
        out
    }

    /// Fresh prompt line for a pane (used after output settles).
    pub fn prompt_line(&self, pane: u32) -> (r: String)
        requires
            self@.wf(),
        ensures
            r@ == prompt_of(self@.mux, pane),
    {
        proof {
            maps::key_at_is_first(self@.mux.panes, pane);
        }
        match self.mux.pane(pane) {
            Some(p) => p.editor.prompt_line(),
            None => String::new(),
        }
    }
}

/// The engine with a pane's state replaced.
pub open spec fn with_pane(e: EngineView, pane: u32, p: model::PaneView) -> EngineView {
    EngineView { mux: MuxView { panes: maps::put(e.mux.panes, pane, p), ..e.mux }, ..e }
}

/// What a control message comes to.
pub struct HandledView {
    pub engine: EngineView,
    pub result: MsgResultView,
}

/// A mutation of the multiplexer, and the host told of it.
pub open spec fn in_mux(e: EngineView, r: (MuxView, OutcomeView), replies: ReplySeq) -> Result<
    HandledView,
    QueryView,
> {
    match outcome_events(r.0, r.1, replies) {
        Err(q) => Err(q),
        Ok(more) => Ok(
            HandledView {
                engine: EngineView { mux: r.0, ..e }.emitting(more),
                result: MsgResultView { run: None, closed_panes: r.1.closed_panes },
            },
        ),
    }
}

/// What the engine does on a control message. A key counts only behind an
/// armed prefix, and disarms it.
pub open spec fn handled(e: EngineView, msg: HostMsg, replies: ReplySeq) -> Result<
    HandledView,
    QueryView,
> {
    match msg {
        HostMsg::PrefixKey => Ok(
            HandledView {
                engine: EngineView { prefix_armed: true, ..e }.emitting(
                    seq![EventView::PrefixState { active: true }],
                ),
                result: no_result(),
            },
        ),
        HostMsg::Key { key } => Ok(
            HandledView {
                engine: EngineView { prefix_armed: false, ..e }.emitting(
                    seq![EventView::PrefixState { active: false }],
                ),
                result: MsgResultView {
                    run: match keys::bound_to(key@) {
                        Some(line) => if e.prefix_armed {
                            Some((model::window_of(e.mux).active_pane, line))
                        } else {
                            None
                        },
                        None => None,
                    },
                    closed_panes: Seq::empty(),
                },
            },
        ),
        HostMsg::FocusPane { pane } => in_mux(e, model::pane_focused(e.mux, pane), replies),
        HostMsg::FocusWindow { window } => in_mux(
            e,
            model::window_focused(e.mux, window),
            replies,
        ),
        HostMsg::FocusSession { session } => in_mux(
            e,
            model::session_focused(e.mux, session),
            replies,
        ),
        HostMsg::ResizeSplit { path, fraction } => match model::divider_dragged(
            e.mux,
            path@,
            fraction,
            replies,
        ) {
            Err(q) => Err(q),
            Ok(r) => in_mux(e, r, replies),
        },
    }
}

/// Without the prefix, a key runs nothing.
pub proof fn keys_need_the_prefix(e: EngineView, key: String, replies: ReplySeq)
    requires
        !e.prefix_armed,
    ensures
        handled(e, HostMsg::Key { key }, replies) matches Ok(h) ==> h.result.run is None,
{
}

impl Engine {
    fn list_sessions(&self) -> (r: Vec<SessionInfo>)
        requires
            self@.wf(),
        ensures
            r@.map_values(|s: SessionInfo| s@) == session_infos(self@.mux),
    {
        let ghost all = self@.mux.sessions;
        let ids = maps::map_keys(&self.mux.sessions);
        let mut out: Vec<SessionInfo> = Vec::new();
        let mut i: usize = 0;
        while i < ids.len()
            invariant
                self@.wf(),
                all == self@.mux.sessions,
                ids@ == maps::keys_of(all),
                i <= ids@.len(),
                out@.len() == i,
                forall|k: int| 0 <= k < i ==> (#[trigger] out@[k])@ == session_infos(self@.mux)[k],
            decreases ids@.len() - i,
        {
            proof {
                maps::key_at_index(all, i as int);
            }
            let s = self.mux.session(ids[i]).unwrap();
            out.push(
                SessionInfo {
                    id: s.id,
                    name: s.name.clone(),
                    active: s.id == self.mux.active_session,
                },
            );
            i = i + 1;
        }
        proof {
            assert(out@.map_values(|s: SessionInfo| s@) =~= session_infos(self@.mux));
        }
        out
    }

    fn list_windows(&self) -> (r: Vec<WindowInfo>)
        requires
            self@.wf(),
        ensures
            r@.map_values(|w: WindowInfo| w@) == window_infos(model::session_of(self@.mux)),
    {
        proof {
            soundness::the_active_exist(self@.mux);
        }
        let s = self.mux.active_session();
        let ghost all = s@.windows;
        let ids = maps::map_keys(&s.windows);
        let mut out: Vec<WindowInfo> = Vec::new();
        let mut i: usize = 0;
        while i < ids.len()
            invariant
                all == s@.windows,
                maps::distinct_keys(all),
                ids@ == maps::keys_of(all),
                i <= ids@.len(),
                out@.len() == i,
                forall|k: int| 0 <= k < i ==> (#[trigger] out@[k])@ == window_infos(s@)[k],
            decreases ids@.len() - i,
        {
            proof {
                maps::key_at_index(all, i as int);
            }
            let w = maps::map_get(&s.windows, ids[i]).unwrap();
            out.push(
                WindowInfo { id: w.id, name: w.name.clone(), active: w.id == s.active_window },
            );
            i = i + 1;
        }
        proof {
            assert(out@.map_values(|w: WindowInfo| w@) =~= window_infos(s@));
        }
        out
    }

    pub fn snapshot(&self, replies: &Replies) -> (r: Result<LayoutSnapshot, Query>)
        requires
            self@.wf(),
        ensures
            match r {
                Ok(s) => pictured(self@.mux, replies@) == Ok::<SnapshotView, QueryView>(s@),
                Err(q) => pictured(self@.mux, replies@) == Err::<SnapshotView, QueryView>(q@),
            },
    {
        let window = self.mux.active_window();
        let rects = match mux::layout_window(window, Rect::full(), replies) {
            Ok(x) => x,
            Err(q) => {
                return Err(q);
            },
        };
        let active = window.active_pane;
        let mut panes: Vec<PaneInfo> = Vec::new();
        let mut i: usize = 0;
        while i < rects.len()
            invariant
                i <= rects@.len(),
                panes@.len() == i,
                forall|k: int|
                    0 <= k < i ==> #[trigger] panes@[k] == pane_infos(rects@, active)[k],
            decreases rects@.len() - i,
        {
            panes.push(
                PaneInfo { pane: rects[i].0, rect: rects[i].1, active: rects[i].0 == active },
            );
            i = i + 1;
        }
        proof {
            assert(panes@ =~= pane_infos(rects@, active));
        }
        Ok(
            LayoutSnapshot {
                sessions: self.list_sessions(),
                windows: self.list_windows(),
                panes,
                active_pane: active,
                zoomed: window.zoomed,
            },
        )
    }

    /// Tell the host what a mutation did. Nothing is told where the picture of
    /// the layout needs an answer first.
    fn apply_outcome(&mut self, outcome: &MuxOutcome, replies: &Replies) -> (r: Result<
        (),
        Query,
    >)
        requires
            old(self)@.wf(),
        ensures
            final(self)@.wf(),
            match outcome_events(old(self)@.mux, outcome@, replies@) {
                Ok(more) => r is Ok && final(self)@ == old(self)@.emitting(more),
                Err(q) => (r matches Err(x) && x@ == q) && final(self)@ == old(self)@,
            },
    {
        let ghost was = self@;
        let mut picture: Option<LayoutSnapshot> = None;
        if outcome.layout_changed {
            match self.snapshot(replies) {
                Ok(s) => {
                    picture = Some(s);
                },
                Err(q) => {
                    return Err(q);
                },
            }
        }
        let mut i: usize = 0;
        proof {
            assert(was.emitting(opened_events(was.mux, outcome@.opened_panes.take(0))) =~= was);
        }
        while i < outcome.opened_panes.len()
            invariant
                i <= outcome.opened_panes@.len(),
                was.wf(),
                self@ == was.emitting(
                    opened_events(was.mux, outcome@.opened_panes.take(i as int)),
                ),
            decreases outcome.opened_panes@.len() - i,
        {
            let pane = outcome.opened_panes[i];
            let ghost before = opened_events(was.mux, outcome@.opened_panes.take(i as int));
            proof {
                assert(outcome@.opened_panes.take(i + 1).drop_last()
                    =~= outcome@.opened_panes.take(i as int));
                assert(outcome@.opened_panes.take(i + 1).last() == pane);
            }
            self.emit(EngineEvent::PaneOpened { pane });
            // The new xterm needs a prompt to be usable.
            let prompt = self.prompt_line(pane);
            self.emit_output(pane, prompt.as_str());
            proof {
                assert(self@.events =~= was.events + opened_events(
                    was.mux,
                    outcome@.opened_panes.take(i + 1),
                ));
                assert(self@ =~= was.emitting(
                    opened_events(was.mux, outcome@.opened_panes.take(i + 1)),
                ));
            }
            i = i + 1;
        }
        let ghost opened = opened_events(was.mux, outcome@.opened_panes);
        proof {
            assert(outcome@.opened_panes.take(outcome@.opened_panes.len() as int)
                =~= outcome@.opened_panes);
            assert(opened + closed_events(outcome@.closed_panes.take(0)) =~= opened);
        }
        let mut j: usize = 0;
        while j < outcome.closed_panes.len()
            invariant
                j <= outcome.closed_panes@.len(),
                self@ == was.emitting(
                    opened + closed_events(outcome@.closed_panes.take(j as int)),
                ),
            decreases outcome.closed_panes@.len() - j,
        {
            self.emit(EngineEvent::PaneClosed { pane: outcome.closed_panes[j] });
            proof {
                assert(self@.events =~= was.events + (opened + closed_events(
                    outcome@.closed_panes.take(j + 1),
                )));
                assert(self@ =~= was.emitting(
                    opened + closed_events(outcome@.closed_panes.take(j + 1)),
                ));
            }
            j = j + 1;
        }
        let ghost closed = opened + closed_events(outcome@.closed_panes);
        proof {
            assert(outcome@.closed_panes.take(outcome@.closed_panes.len() as int)
                =~= outcome@.closed_panes);
            assert(closed + session_events(outcome@.closed_sessions.take(0)) =~= closed);
        }
        let mut k: usize = 0;
        while k < outcome.closed_sessions.len()
            invariant
                k <= outcome.closed_sessions@.len(),
                self@ == was.emitting(
                    closed + session_events(outcome@.closed_sessions.take(k as int)),
                ),
            decreases outcome.closed_sessions@.len() - k,
        {
            self.emit(EngineEvent::SessionClosed { session: outcome.closed_sessions[k] });
            proof {
                assert(self@.events =~= was.events + (closed + session_events(
                    outcome@.closed_sessions.take(k + 1),
                )));
                assert(self@ =~= was.emitting(
                    closed + session_events(outcome@.closed_sessions.take(k + 1)),
                ));
            }
            k = k + 1;
        }
        proof {
            assert(outcome@.closed_sessions.take(outcome@.closed_sessions.len() as int)
                =~= outcome@.closed_sessions);
        }
        let ghost first = closed + session_events(outcome@.closed_sessions);
        match picture {
            Some(snapshot) => {
                let ghost sv = snapshot@;
                self.emit(EngineEvent::LayoutChanged { snapshot });
                proof {
                    let last = EventView::LayoutChanged { snapshot: sv };
                    assert(self@.events =~= was.events + first.push(last));
                    assert(self@ =~= was.emitting(first.push(last)));
                }
            },
            None => {},
        }
        Ok(())
    }

    fn list_rows(&self) -> (r: Vec<Value>)
        requires
            self@.wf(),
        ensures
            value::values_view(r@) == session_rows(self@.mux),
    {
        let ghost all = self@.mux.sessions;
        let ids = maps::map_keys(&self.mux.sessions);
        let mut out: Vec<Value> = Vec::new();
        let mut i: usize = 0;
        while i < ids.len()
            invariant
                self@.wf(),
                all == self@.mux.sessions,
                ids@ == maps::keys_of(all),
                i <= ids@.len(),
                out@.len() == i,
                forall|k: int| 0 <= k < i ==> (#[trigger] out@[k])@ == session_rows(self@.mux)[k],
            decreases ids@.len() - i,
        {
            proof {
                maps::key_at_index(all, i as int);
            }
            let s = self.mux.session(ids[i]).unwrap();
            let windows: usize = maps::map_keys(&s.windows).len();
            out.push(row_of(&s.name, windows, s.id == self.mux.active_session));
            i = i + 1;
        }
        proof {
            assert(value::values_view(out@) =~= session_rows(self@.mux));
        }
        out
    }

    /// The mutation alone, before anybody is told of it.
    fn mutate(&mut self, action: MuxAction, replies: &Replies) -> (r: Result<Applied, Query>)
        requires
            old(self)@.wf(),
            old(self)@.mux.next_id <= u32::MAX - 3,
        ensures
            final(self)@.wf(),
            match mux_applied(old(self)@.mux, action@, replies@) {
                Ok(a) => {
                    &&& r matches Ok(x) && applied_value(x.value) == a.value && x.outcome@
                        == a.outcome
                    &&& final(self)@ == (EngineView { mux: a.mux, ..old(self)@ })
                },
                Err(q) => (r matches Err(x) && x@ == q) && final(self)@ == old(self)@,
            },
    {
        let ghost was = self@;
        let ghost av = action@;
        let done = match action {
            MuxAction::SplitRight => quiet(self.mux.split(Dir::Row).1),
            MuxAction::SplitDown => quiet(self.mux.split(Dir::Col).1),
            MuxAction::WindowNew => quiet(self.mux.new_window().1),
            MuxAction::WindowNext => quiet(self.mux.cycle_window(true)),
            MuxAction::WindowPrev => quiet(self.mux.cycle_window(false)),
            MuxAction::KillPane => match self.mux.kill_active_pane(replies) {
                Ok(o) => quiet(o),
                Err(q) => {
                    return Err(q);
                },
            },
            MuxAction::Focus(word) => match read_direction(word.as_str()) {
                None => {
                    let msg = text::around("unknown focus direction `", word.as_str(), "`");
                    refusal(
                        ShellError::runtime(msg.as_str()).with_help(
                            "use next, left, right, up or down",
                        ),
                    )
                },
                Some(dir) => match self.mux.focus(dir, replies) {
                    Ok(o) => quiet(o),
                    Err(q) => {
                        return Err(q);
                    },
                },
            },
            MuxAction::Zoom => quiet(self.mux.toggle_zoom()),
            MuxAction::Hide => quiet(MuxOutcome::none()),
            MuxAction::SessionNew { name } => quiet(self.mux.new_session(name).1),
            MuxAction::SessionList => Applied {
                value: Ok(Value::List(self.list_rows())),
                outcome: MuxOutcome::none(),
            },
            MuxAction::SessionSwitch { name } => match self.mux.switch_session(name.as_str()) {
                Ok(o) => quiet(o),
                Err(msg) => refusal(
                    ShellError::runtime(msg.as_str()).with_help(
                        "run `session list` to see sessions",
                    ),
                ),
            },
            MuxAction::SessionNext => quiet(self.mux.cycle_session(true)),
            MuxAction::SessionPrev => quiet(self.mux.cycle_session(false)),
        };
        proof {
            let a = mux_applied(was.mux, av, replies@)->Ok_0;
            assert(self@ =~= EngineView { mux: a.mux, ..was });
        }
        Ok(done)
    }

    /// Tell the host what a mutation did, or take the mutation back where the
    /// picture of the layout needs an answer first.
    fn tell_or_undo(&mut self, outcome: &MuxOutcome, kept: Mux, replies: &Replies) -> (r: Result<
        (),
        Query,
    >)
        requires
            old(self)@.wf(),
            kept@.wf(),
        ensures
            final(self)@.wf(),
            match outcome_events(old(self)@.mux, outcome@, replies@) {
                Ok(more) => r is Ok && final(self)@ == old(self)@.emitting(more),
                Err(q) => (r matches Err(x) && x@ == q) && final(self)@ == (EngineView {
                    mux: kept@,
                    ..old(self)@
                }),
            },
    {
        match self.apply_outcome(outcome, replies) {
            Ok(()) => Ok(()),
            Err(q) => {
                self.mux = kept;
                Err(q)
            },
        }
    }

    /// Apply a mux mutation from a shell command (`mux …` / `session …`).
    /// Returns the command's value plus the pane ids whose tasks must be
    /// aborted by the host. Where an answer is missing, nothing has happened.
    pub fn mux_apply(&mut self, action: MuxAction, replies: &Replies) -> (r: Result<
        (Result<Value, ShellError>, Vec<u32>),
        Query,
    >)
        requires
            old(self)@.wf(),
            old(self)@.mux.next_id <= u32::MAX - 3,
        ensures
            final(self)@.wf(),
            match mux_applied(old(self)@.mux, action@, replies@) {
                Ok(a) => match outcome_events(a.mux, a.outcome, replies@) {
                    Ok(more) => {
                        &&& r matches Ok(x) && applied_value(x.0) == a.value && x.1@
                            == a.outcome.closed_panes
                        &&& final(self)@ == (EngineView { mux: a.mux, ..old(self)@ }).emitting(
                            hide_events(action@) + more,
                        )
                    },
                    Err(q) => (r matches Err(x) && x@ == q) && final(self)@ == old(self)@,
                },
                Err(q) => (r matches Err(x) && x@ == q) && final(self)@ == old(self)@,
            },
    {
        let ghost was = self@;
        let hides = match &action {
            MuxAction::Hide => true,
            _ => false,
        };
        let ghost av = action@;
        let kept = self.mux.duplicate();
        let done = match self.mutate(action, replies) {
            Ok(d) => d,
            Err(q) => {
                return Err(q);
            },
        };
        let ghost a = mux_applied(was.mux, av, replies@)->Ok_0;
        if let Err(q) = self.tell_or_undo(&done.outcome, kept, replies) {
            proof {
                assert(self@ =~= was);
            }
            return Err(q);
        }
        let ghost more = outcome_events(a.mux, a.outcome, replies@)->Ok_0;
        if hides {
            proof {
                assert(more =~= Seq::empty());
            }
            self.emit(EngineEvent::HidePanel);
        }
        proof {
            assert(self@.events =~= was.events + (hide_events(av) + more));
            assert(self@ =~= EngineView { mux: a.mux, ..was }.emitting(hide_events(av) + more));
        }
        Ok((done.value, done.outcome.closed_panes))
    }

    /// Host control messages (prefix chord, clicks, divider drags). Where an
    /// answer is missing, nothing has happened.
    pub fn handle_msg(&mut self, msg: HostMsg, replies: &Replies) -> (r: Result<MsgResult, Query>)
        requires
            old(self)@.wf(),
        ensures
            final(self)@.wf(),
            match handled(old(self)@, msg, replies@) {
                Ok(h) => {
                    &&& r matches Ok(x) && x@ == h.result
                    &&& final(self)@ == h.engine
                },
                Err(q) => (r matches Err(x) && x@ == q) && final(self)@ == old(self)@,
            },
    {
        let ghost was = self@;
        match msg {
            HostMsg::PrefixKey => {
                self.prefix_armed = true;
                self.emit(EngineEvent::PrefixState { active: true });
                proof {
                    assert(self@ =~= handled(was, msg, replies@)->Ok_0.engine);
                }
                return Ok(MsgResult::default());
            },
            HostMsg::Key { key } => {
                let was_armed = self.prefix_armed;
                self.prefix_armed = false;
                self.emit(EngineEvent::PrefixState { active: false });
                proof {
                    assert(self@ =~= handled(was, msg, replies@)->Ok_0.engine);
                }
                if was_armed {
                    match keys::keymap(key.as_str()) {
                        Some(line) => {
                            let pane = self.mux.active_pane();
                            return Ok(
                                MsgResult {
                                    run: Some((pane, line.to_owned())),
                                    closed_panes: Vec::new(),
                                },
                            );
                        },
                        None => {},
                    }
                }
                return Ok(MsgResult::default());
            },
            _ => {},
        }
        let kept = self.mux.duplicate();
        let outcome = match msg {
            HostMsg::FocusPane { pane } => self.mux.focus_pane(pane),
            HostMsg::FocusWindow { window } => self.mux.focus_window(window),
            HostMsg::FocusSession { session } => self.mux.focus_session(session),
            HostMsg::ResizeSplit { path, fraction } => {
                match self.mux.resize_split(path.as_slice(), fraction, replies) {
                    Ok(o) => o,
                    Err(q) => {
                        proof {
                            assert(self@ =~= was);
                        }
                        return Err(q);
                    },
                }
            },
            _ => MuxOutcome::none(),
        };
        if let Err(q) = self.tell_or_undo(&outcome, kept, replies) {
            proof {
                assert(self@ =~= was);
            }
            return Err(q);
        }
        proof {
            assert(self@ =~= handled(was, msg, replies@)->Ok_0.engine);
        }
        Ok(MsgResult { run: None, closed_panes: outcome.closed_panes })
    }
}

/// `mux hide` asks the host to hide the panel.
pub open spec fn hide_events(action: MuxActionView) -> Seq<EventView> {
    match action {
        MuxActionView::Hide => seq![EventView::HidePanel],
        _ => Seq::empty(),
    }
}

} // verus!
