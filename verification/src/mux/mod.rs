//! The multiplexer data model: sessions → windows → a layout tree of panes.
//! Pure tree/layout logic — the engine layer owns event emission and editor
//! lifecycles, driven by the outcomes returned here.

pub mod keys;
pub mod layout;
pub mod maps;
pub mod model;
pub mod share;
pub mod soundness;
pub mod tree;

use crate::ask::{FloatOp, Query, QueryView, Replies, ReplySeq};
use crate::editor::LineEditor;
use crate::error;
use crate::expr::Scope;
use crate::mux::model::{MuxView, OutcomeView, PaneView, SessionView, WindowView};
use crate::mux::tree::{Dir, LayoutNode};
use crate::text;
use crate::value::Fields;
use indexmap::IndexMap;
use vstd::prelude::*;

verus! {

pub type WindowId = u32;

pub type SessionId = u32;

pub type PaneId = u32;

#[derive(Clone, Copy, Debug, PartialEq, Eq, Structural)]
pub enum FocusDir {
    Next,
    Left,
    Right,
    Up,
    Down,
}

/// What a mutation did — the engine turns this into events and host-side
/// task/xterm lifecycle changes.
#[derive(Debug)]
pub struct MuxOutcome {
    pub opened_panes: Vec<PaneId>,
    pub closed_panes: Vec<PaneId>,
    pub closed_sessions: Vec<SessionId>,
    pub layout_changed: bool,
}

impl View for MuxOutcome {
    type V = OutcomeView;

    open spec fn view(&self) -> OutcomeView {
        OutcomeView {
            opened_panes: self.opened_panes@,
            closed_panes: self.closed_panes@,
            closed_sessions: self.closed_sessions@,
            layout_changed: self.layout_changed,
        }
    }
}

pub struct PaneShell {
    pub editor: LineEditor,
    pub cols: u16,
    pub rows: u16,
    /// A pipeline task is in flight. (The abort handle lives host-side.)
    pub running: bool,
}

impl View for PaneShell {
    type V = PaneView;

    open spec fn view(&self) -> PaneView {
        PaneView {
            editor: self.editor@,
            cols: self.cols,
            rows: self.rows,
            running: self.running,
        }
    }
}

pub struct Window {
    pub id: WindowId,
    pub name: String,
    pub layout: tree::LayoutNode,
    pub active_pane: PaneId,
    pub zoomed: Option<PaneId>,
}

impl View for Window {
    type V = WindowView;

    open spec fn view(&self) -> WindowView {
        WindowView {
            id: self.id,
            name: self.name@,
            layout: self.layout@,
            active_pane: self.active_pane,
            zoomed: self.zoomed,
        }
    }
}

pub struct Session {
    pub id: SessionId,
    pub name: String,
    pub windows: IndexMap<WindowId, Window>,
    pub active_window: WindowId,
    pub vars: Scope,
}

impl View for Session {
    type V = SessionView;

    open spec fn view(&self) -> SessionView {
        SessionView {
            id: self.id,
            name: self.name@,
            windows: maps::window_entries(self.windows),
            active_window: self.active_window,
            vars: self.vars@,
        }
    }
}

pub struct Mux {
    pub sessions: IndexMap<SessionId, Session>,
    pub active_session: SessionId,
    pub panes: IndexMap<PaneId, PaneShell>,
    /// The id that the next pane, window or session gets.
    pub next_id: u32,
}

impl View for Mux {
    type V = MuxView;

    open spec fn view(&self) -> MuxView {
        MuxView {
            sessions: maps::session_entries(self.sessions),
            active_session: self.active_session,
            panes: maps::pane_entries(self.panes),
            next_id: self.next_id,
        }
    }
}

impl Default for MuxOutcome {
    fn default() -> (r: Self)
        ensures
            r@ == OutcomeView::none(),
    {
        MuxOutcome::none()
    }
}

impl MuxOutcome {
    /// Nothing happened.
    pub fn none() -> (r: Self)
        ensures
            r@ == OutcomeView::none(),
    {
        MuxOutcome {
            opened_panes: Vec::new(),
            closed_panes: Vec::new(),
            closed_sessions: Vec::new(),
            layout_changed: false,
        }
    }

    fn changed() -> (r: Self)
        ensures
            r@ == OutcomeView::changed(),
    {
        MuxOutcome {
            opened_panes: Vec::new(),
            closed_panes: Vec::new(),
            closed_sessions: Vec::new(),
            layout_changed: true,
        }
    }

    fn opened(p: PaneId) -> (r: Self)
        ensures
            r@ == OutcomeView::opened(p),
    {
        let r = MuxOutcome {
            opened_panes: vec![p],
            closed_panes: Vec::new(),
            closed_sessions: Vec::new(),
            layout_changed: true,
        };
        proof {
            assert(r@.opened_panes =~= seq![p]);
        }
        r
    }

    fn closed(p: PaneId) -> (r: Self)
        ensures
            r@ == OutcomeView::closed(p),
    {
        let r = MuxOutcome {
            opened_panes: Vec::new(),
            closed_panes: vec![p],
            closed_sessions: Vec::new(),
            layout_changed: true,
        };
        proof {
            assert(r@.closed_panes =~= seq![p]);
        }
        r
    }
}

impl Clone for PaneShell {
    fn clone(&self) -> (r: Self)
        ensures
            r@ == self@,
    {
        PaneShell {
            editor: self.editor.clone(),
            cols: self.cols,
            rows: self.rows,
            running: self.running,
        }
    }
}

impl Clone for Window {
    fn clone(&self) -> (r: Self)
        ensures
            r@ == self@,
    {
        Window {
            id: self.id,
            name: self.name.clone(),
            layout: self.layout.clone(),
            active_pane: self.active_pane,
            zoomed: self.zoomed,
        }
    }
}

impl Session {
    /// A session like this one.
    fn duplicate(&self) -> (r: Self)
        requires
            maps::distinct_keys(self@.windows),
        ensures
            r@ == self@,
    {
        let ghost all = self@.windows;
        let ids = maps::map_keys(&self.windows);
        let mut windows = maps::new_windows();
        let mut i: usize = 0;
        while i < ids.len()
            invariant
                all == maps::window_entries(self.windows),
                maps::distinct_keys(all),
                ids@ == maps::keys_of(all),
                i <= ids@.len(),
                maps::window_entries(windows) == all.take(i as int),
            decreases ids@.len() - i,
        {
            proof {
                maps::key_at_index(all, i as int);
                maps::the_next_goes_to_the_end(all, i as int);
            }
            let w = maps::map_get(&self.windows, ids[i]).unwrap();
            maps::map_insert(&mut windows, ids[i], w.clone());
            i = i + 1;
        }
        proof {
            assert(all.take(all.len() as int) =~= all);
        }
        Session {
            id: self.id,
            name: self.name.clone(),
            windows,
            active_window: self.active_window,
            vars: self.vars.clone(),
        }
    }
}

impl PaneShell {
    fn new() -> (r: Self)
        ensures
            r@ == model::fresh_pane(),
    {
        PaneShell { editor: LineEditor::new(), cols: 80, rows: 24, running: false }
    }
}

impl Window {
    /// A window of one pane.
    fn of_pane(id: WindowId, name: String, pane: PaneId) -> (r: Self)
        ensures
            r@ == model::fresh_window(id, name@, pane),
    {
        Window { id, name, layout: LayoutNode::Leaf(pane), active_pane: pane, zoomed: None }
    }

    /// The same window with another arrangement.
    fn rearranged(&self, layout: LayoutNode, active_pane: PaneId, zoomed: Option<PaneId>) -> (r:
        Self)
        ensures
            r@ == (WindowView { layout: layout@, active_pane, zoomed, ..self@ }),
    {
        Window { id: self.id, name: self.name.clone(), layout, active_pane, zoomed }
    }
}

impl Default for Mux {
    fn default() -> (r: Self)
        ensures
            r@ == model::started(),
            r@.wf(),
    {
        Mux::new()
    }
}

impl Mux {
    /// A multiplexer like this one, to try a mutation on.
    pub(crate) fn duplicate(&self) -> (r: Self)
        requires
            self@.wf(),
        ensures
            r@ == self@,
    {
        let ghost all = self@.sessions;
        let ids = maps::map_keys(&self.sessions);
        let mut sessions = maps::new_sessions();
        let mut i: usize = 0;
        while i < ids.len()
            invariant
                self@.wf(),
                all == maps::session_entries(self.sessions),
                ids@ == maps::keys_of(all),
                i <= ids@.len(),
                maps::session_entries(sessions) == all.take(i as int),
            decreases ids@.len() - i,
        {
            proof {
                maps::key_at_index(all, i as int);
                maps::the_next_goes_to_the_end(all, i as int);
                assert(soundness::session_ok(self@.sessions[i as int], self@.next_id));
            }
            let s = maps::map_get(&self.sessions, ids[i]).unwrap();
            maps::map_insert(&mut sessions, ids[i], s.duplicate());
            i = i + 1;
        }
        let ghost held = self@.panes;
        let keys = maps::map_keys(&self.panes);
        let mut panes = maps::new_panes();
        let mut k: usize = 0;
        while k < keys.len()
            invariant
                self@.wf(),
                held == maps::pane_entries(self.panes),
                keys@ == maps::keys_of(held),
                k <= keys@.len(),
                maps::pane_entries(panes) == held.take(k as int),
            decreases keys@.len() - k,
        {
            proof {
                maps::key_at_index(held, k as int);
                maps::the_next_goes_to_the_end(held, k as int);
            }
            let p = maps::map_get(&self.panes, keys[k]).unwrap();
            maps::map_insert(&mut panes, keys[k], p.clone());
            k = k + 1;
        }
        proof {
            assert(all.take(all.len() as int) =~= all);
            assert(held.take(held.len() as int) =~= held);
        }
        Mux { sessions, active_session: self.active_session, panes, next_id: self.next_id }
    }

    /// A mux always has at least one session/window/pane.
    pub fn new() -> (r: Self)
        ensures
            r@ == model::started(),
            r@.wf(),
    {
        let mut mux = Mux {
            sessions: maps::new_sessions(),
            active_session: 0,
            panes: maps::new_panes(),
            next_id: 0,
        };
        let sid = mux.create_session("main".to_owned());
        mux.active_session = sid;
        proof {
            soundness::a_new_mux_is_in_order();
        }
        mux
    }

    fn create_pane(&mut self) -> (r: PaneId)
        requires
            old(self)@.next_id < u32::MAX,
        ensures
            r == old(self)@.next_id,
            final(self)@ == model::pane_added(old(self)@),
    {
        let id = self.next_id;
        self.next_id = id + 1;
        maps::map_insert(&mut self.panes, id, PaneShell::new());
        id
    }

    fn create_session(&mut self, name: String) -> (r: SessionId)
        requires
            old(self)@.next_id <= u32::MAX - 3,
        ensures
            r == old(self)@.next_id + 2,
            final(self)@ == model::session_added(old(self)@, name@),
    {
        let ghost was = self@;
        let pane = self.create_pane();
        let wid: u32 = pane + 1;
        let sid: u32 = pane + 2;
        let mut windows = maps::new_windows();
        maps::map_insert(&mut windows, wid, Window::of_pane(wid, "main".to_owned(), pane));
        let session = Session { id: sid, name, windows, active_window: wid, vars: Fields::new() };
        proof {
            assert(session@.vars =~= Seq::empty());
            assert(session@ == model::fresh_session(sid, name@, wid, pane));
        }
        maps::map_insert(&mut self.sessions, sid, session);
        self.next_id = pane + 3;
        proof {
            assert(self@ =~= model::session_added(was, name@));
        }
        sid
    }

    // --- accessors ---

    pub fn active_session(&self) -> (r: &Session)
        requires
            self@.wf(),
        ensures
            r@ == model::session_of(self@),
    {
        maps::map_get(&self.sessions, self.active_session).unwrap()
    }

    pub fn active_window(&self) -> (r: &Window)
        requires
            self@.wf(),
        ensures
            r@ == model::window_of(self@),
    {
        proof {
            soundness::the_active_exist(self@);
        }
        let s = self.active_session();
        maps::map_get(&s.windows, s.active_window).unwrap()
    }

    pub fn active_pane(&self) -> (r: PaneId)
        requires
            self@.wf(),
        ensures
            r == model::window_of(self@).active_pane,
    {
        self.active_window().active_pane
    }

    pub fn pane(&self, id: PaneId) -> (r: Option<&PaneShell>)
        ensures
            match r {
                Some(p) => maps::key_at(self@.panes, id) is Some && p@ == self@.panes[maps::key_at(
                    self@.panes,
                    id,
                )->0].1,
                None => maps::key_at(self@.panes, id) is None,
            },
    {
        maps::map_get(&self.panes, id)
    }

    /// A session by its id.
    pub fn session(&self, id: SessionId) -> (r: Option<&Session>)
        ensures
            match r {
                Some(s) => maps::key_at(self@.sessions, id) is Some && s@
                    == self@.sessions[maps::key_at(self@.sessions, id)->0].1,
                None => maps::key_at(self@.sessions, id) is None,
            },
    {
        maps::map_get(&self.sessions, id)
    }

    /// A session's variables, to be changed in their place.
    pub fn session_vars_mut(&mut self, id: SessionId) -> (r: Option<&mut Scope>)
        ensures
            match r {
                Some(vars) => match maps::key_at(old(self)@.sessions, id) {
                    Some(i) => (*vars)@ == old(self)@.sessions[i].1.vars && final(self)@ == (
                    MuxView {
                        sessions: old(self)@.sessions.update(
                            i,
                            (
                                id,
                                SessionView {
                                    vars: (*final(vars))@,
                                    ..old(self)@.sessions[i].1
                                },
                            ),
                        ),
                        ..old(self)@
                    }),
                    None => false,
                },
                None => maps::key_at(old(self)@.sessions, id) is None && final(self)@ == old(self)@,
            },
    {
        match maps::map_get_mut(&mut self.sessions, id) {
            Some(s) => Some(&mut s.vars),
            None => None,
        }
    }

    /// A pane's state, to be changed in its place.
    pub fn pane_mut(&mut self, id: PaneId) -> (r: Option<&mut PaneShell>)
        ensures
            match r {
                Some(p) => match maps::key_at(old(self)@.panes, id) {
                    Some(i) => (*p)@ == old(self)@.panes[i].1 && final(self)@ == (MuxView {
                        panes: old(self)@.panes.update(i, (id, (*final(p))@)),
                        ..old(self)@
                    }),
                    None => false,
                },
                None => maps::key_at(old(self)@.panes, id) is None && final(self)@ == old(self)@,
            },
    {
        maps::map_get_mut(&mut self.panes, id)
    }

    /// Put a window in the place of the active one.
    fn update_window(&mut self, w: Window)
        requires
            maps::key_at(old(self)@.sessions, old(self)@.active_session) is Some,
        ensures
            final(self)@ == model::with_window(old(self)@, w@),
    {
        let ghost was = self@;
        let sid = self.active_session;
        match maps::map_get_mut(&mut self.sessions, sid) {
            Some(s) => {
                let wid = s.active_window;
                maps::map_insert(&mut s.windows, wid, w);
            },
            None => {},
        }
        proof {
            assert(self@.sessions =~= model::with_window(was, w@).sessions);
        }
    }

    /// Let another window of the active session be the active one.
    fn set_active_window(&mut self, wid: WindowId)
        requires
            maps::key_at(old(self)@.sessions, old(self)@.active_session) is Some,
        ensures
            final(self)@ == model::with_session(
                old(self)@,
                SessionView { active_window: wid, ..model::session_of(old(self)@) },
            ),
    {
        let ghost was = self@;
        let sid = self.active_session;
        match maps::map_get_mut(&mut self.sessions, sid) {
            Some(s) => {
                s.active_window = wid;
            },
            None => {},
        }
        proof {
            assert(self@.sessions =~= model::with_session(
                was,
                SessionView { active_window: wid, ..model::session_of(was) },
            ).sessions);
        }
    }

    // --- operations ---

    /// Split the active pane; the new pane becomes active.
    pub fn split(&mut self, dir: Dir) -> (r: (PaneId, MuxOutcome))
        requires
            old(self)@.wf(),
            old(self)@.next_id < u32::MAX,
        ensures
            r.0 == old(self)@.next_id,
            r.1@ == OutcomeView::opened(old(self)@.next_id),
            final(self)@ == model::split_done(old(self)@, dir),
            final(self)@.wf(),
    {
        let ghost was = self@;
        proof {
            soundness::the_active_exist(was);
            soundness::splitting_keeps_order(was, dir);
        }
        let window = self.active_window();
        let target = window.active_pane;
        let new_pane = self.next_id;
        let layout = layout::split_leaf(&window.layout, target, dir, new_pane);
        let split = window.rearranged(layout, new_pane, None);
        self.create_pane();
        self.update_window(split);
        (new_pane, MuxOutcome::opened(new_pane))
    }

    /// The active session emptied.
    fn close_session(&mut self, target: PaneId) -> (r: MuxOutcome)
        requires
            old(self)@.next_id <= u32::MAX - 3,
        ensures
            (final(self)@, r@) == model::session_closed(old(self)@, target),
    {
        let ghost was = self@;
        let sid = self.active_session;
        maps::map_remove(&mut self.sessions, sid);
        let mut outcome = MuxOutcome::closed(target);
        outcome.closed_sessions.push(sid);
        proof {
            assert(outcome@.closed_sessions =~= seq![sid]);
        }
        let keys = maps::map_keys(&self.sessions);
        if keys.len() > 0 {
            self.active_session = keys[keys.len() - 1];
            proof {
                assert(keys@.last() == maps::taken(was.sessions, sid).last().0);
            }
        } else {
            let pane = self.next_id;
            let fresh = self.create_session("main".to_owned());
            self.active_session = fresh;
            outcome.opened_panes.push(pane);
            proof {
                assert(outcome@.opened_panes =~= seq![pane]);
            }
        }
        outcome
    }

    /// The active window emptied.
    fn close_window(&mut self, target: PaneId) -> (r: MuxOutcome)
        requires
            old(self)@.next_id <= u32::MAX - 3,
            maps::key_at(old(self)@.sessions, old(self)@.active_session) is Some,
        ensures
            (final(self)@, r@) == model::window_closed(old(self)@, target),
    {
        let ghost was = self@;
        let ghost s = model::session_of(was);
        let sid = self.active_session;
        let mut left: usize = 0;
        match maps::map_get_mut(&mut self.sessions, sid) {
            Some(session) => {
                let wid = session.active_window;
                maps::map_remove(&mut session.windows, wid);
                let keys = maps::map_keys(&session.windows);
                left = keys.len();
                if left > 0 {
                    session.active_window = keys[left - 1];
                    proof {
                        assert(keys@.last() == maps::taken(s.windows, wid).last().0);
                    }
                }
            },
            None => {},
        }
        if left > 0 {
            proof {
                assert(self@.sessions =~= model::window_closed(was, target).0.sessions);
            }
            return MuxOutcome::closed(target);
        }
        proof {
            let i = maps::key_at(was.sessions, sid)->0;
            maps::key_at_is_first(was.sessions, sid);
            maps::key_at_is_first(self@.sessions, sid);
            assert(maps::key_at(self@.sessions, sid) == Some(i)) by {
                assert(self@.sessions[i].0 == sid);
                assert forall|j: int| 0 <= j < i implies (#[trigger] self@.sessions[j]).0 != sid by {
                    assert(self@.sessions[j] == was.sessions[j]);
                }
            }
            assert(maps::taken(self@.sessions, sid) =~= maps::taken(was.sessions, sid));
        }
        self.close_session(target)
    }

    /// Kill the active pane, collapsing the tree. Cascades window → session;
    /// a fresh "main" session is created if the last one closes.
    pub fn kill_active_pane(&mut self, replies: &Replies) -> (r: Result<MuxOutcome, Query>)
        requires
            old(self)@.wf(),
            old(self)@.next_id <= u32::MAX - 3,
        ensures
            match model::killed(old(self)@, replies@) {
                Ok((m, o)) => r matches Ok(x) && x@ == o && final(self)@ == m,
                Err(q) => r matches Err(x) && x@ == q && final(self)@ == old(self)@,
            },
            final(self)@.wf(),
    {
        let ghost was = self@;
        proof {
            soundness::the_active_exist(was);
            soundness::killing_keeps_order(was, replies@);
        }
        let window = self.active_window();
        let target = window.active_pane;
        match layout::remove_leaf(&window.layout, target, replies) {
            Err(q) => Err(q),
            Ok(Some(kept)) => {
                proof {
                    layout::removing_keeps_the_others(window@.layout, target, replies@);
                }
                let order = layout::leaves(&kept);
                let next = order[order.len() - 1];
                let w = window.rearranged(kept, next, None);
                maps::map_remove(&mut self.panes, target);
                self.update_window(w);
                Ok(MuxOutcome::closed(target))
            },
            Ok(None) => {
                maps::map_remove(&mut self.panes, target);
                Ok(self.close_window(target))
            },
        }
    }

    pub fn new_window(&mut self) -> (r: (PaneId, MuxOutcome))
        requires
            old(self)@.wf(),
            old(self)@.next_id <= u32::MAX - 2,
        ensures
            r.0 == old(self)@.next_id,
            r.1@ == OutcomeView::opened(old(self)@.next_id),
            final(self)@ == model::window_added(old(self)@),
            final(self)@.wf(),
    {
        let ghost was = self@;
        proof {
            soundness::the_active_exist(was);
            soundness::adding_a_window_keeps_order(was);
        }
        let pane = self.next_id;
        let mut name = "win".to_owned();
        text::push_number(&mut name, pane as u64);
        let ghost nv = name@;
        self.create_pane();
        let wid: u32 = pane + 1;
        self.next_id = pane + 2;
        let window = Window::of_pane(wid, name, pane);
        let ghost mid = self@;
        let sid = self.active_session;
        match maps::map_get_mut(&mut self.sessions, sid) {
            Some(s) => {
                maps::map_insert(&mut s.windows, wid, window);
                s.active_window = wid;
            },
            None => {},
        }
        proof {
            assert(self@.sessions =~= model::window_added(was).sessions);
            assert(self@ =~= model::window_added(was));
        }
        (pane, MuxOutcome::opened(pane))
    }

    pub fn cycle_window(&mut self, forward: bool) -> (r: MuxOutcome)
        requires
            old(self)@.wf(),
        ensures
            r@ == OutcomeView::changed(),
            final(self)@ == model::window_cycled(old(self)@, forward),
            final(self)@.wf(),
    {
        let ghost was = self@;
        proof {
            soundness::the_active_exist(was);
            soundness::cycling_windows_keeps_order(was, forward);
        }
        let s = self.active_session();
        let ids = maps::map_keys(&s.windows);
        let next = step_in_ring(&ids, s.active_window, forward);
        self.set_active_window(next);
        MuxOutcome::changed()
    }

    pub fn toggle_zoom(&mut self) -> (r: MuxOutcome)
        requires
            old(self)@.wf(),
        ensures
            r@ == OutcomeView::changed(),
            final(self)@ == model::zoom_toggled(old(self)@),
            final(self)@.wf(),
    {
        let ghost was = self@;
        proof {
            soundness::the_active_exist(was);
            soundness::zooming_keeps_order(was);
        }
        let window = self.active_window();
        let zoomed = match window.zoomed {
            Some(_) => None,
            None => Some(window.active_pane),
        };
        let w = window.rearranged(window.layout.clone(), window.active_pane, zoomed);
        self.update_window(w);
        MuxOutcome::changed()
    }

    pub fn focus(&mut self, dir: FocusDir, replies: &Replies) -> (r: Result<MuxOutcome, Query>)
        requires
            old(self)@.wf(),
        ensures
            match model::focus_moved(old(self)@, dir, replies@) {
                Ok((m, o)) => r matches Ok(x) && x@ == o && final(self)@ == m,
                Err(q) => r matches Err(x) && x@ == q && final(self)@ == old(self)@,
            },
            final(self)@.wf(),
    {
        let ghost was = self@;
        proof {
            soundness::the_active_exist(was);
            soundness::moving_focus_keeps_order(was, dir, replies@);
        }
        let window = self.active_window();
        match find_focus(window, dir, replies) {
            Err(q) => Err(q),
            Ok(None) => Ok(MuxOutcome::none()),
            Ok(Some(p)) => {
                let zoomed = match window.zoomed {
                    Some(_) => Some(p),
                    None => None,
                };
                let w = window.rearranged(window.layout.clone(), p, zoomed);
                self.update_window(w);
                Ok(MuxOutcome::changed())
            },
        }
    }

    /// The session that owns a pane (panes never move across sessions).
    pub fn session_of_pane(&self, pane: PaneId) -> (r: Option<SessionId>)
        requires
            self@.wf(),
        ensures
            match r {
                Some(s) => model::session_with(self@.sessions, pane) is Some && s
                    == self@.sessions[model::session_with(self@.sessions, pane)->0].1.id,
                None => model::session_with(self@.sessions, pane) is None,
            },
    {
        let ghost all = self@.sessions;
        let ids = maps::map_keys(&self.sessions);
        let mut i: usize = 0;
        while i < ids.len()
            invariant
                self@.wf(),
                all == self@.sessions,
                ids@ == maps::keys_of(all),
                i <= ids@.len(),
                model::session_with(all.take(i as int), pane) is None,
            decreases ids@.len() - i,
        {
            proof {
                maps::key_at_index(all, i as int);
                assert(all.take(i + 1).drop_last() =~= all.take(i as int));
                assert(all.take(i + 1).last() == all[i as int]);
                assert(soundness::session_ok(all[i as int], self@.next_id));
            }
            let s = maps::map_get(&self.sessions, ids[i]).unwrap();
            if find_window(s, pane).is_some() {
                proof {
                    session_found(all, pane, i as int);
                }
                return Some(s.id);
            }
            i = i + 1;
        }
        proof {
            assert(all.take(all.len() as int) =~= all);
        }
        None
    }

    /// Focus a specific pane (host click), wherever it is: its session and its
    /// window become active with it. No-op if no window shows it.
    pub fn focus_pane(&mut self, pane: PaneId) -> (r: MuxOutcome)
        requires
            old(self)@.wf(),
        ensures
            (final(self)@, r@) == model::pane_focused(old(self)@, pane),
            final(self)@.wf(),
    {
        let ghost was = self@;
        proof {
            soundness::focusing_a_pane_keeps_order(was, pane);
        }
        match self.session_of_pane(pane) {
            None => MuxOutcome::none(),
            Some(sid) => {
                let ghost i = model::session_with(was.sessions, pane)->0;
                proof {
                    soundness::session_with_is(was.sessions, pane);
                    assert(soundness::session_ok(was.sessions[i], was.next_id));
                    maps::key_at_index(was.sessions, i);
                }
                self.active_session = sid;
                match maps::map_get_mut(&mut self.sessions, sid) {
                    Some(s) => {
                        let ghost sv = s@;
                        proof {
                            soundness::window_with_is(sv.windows, pane);
                            maps::key_at_index(
                                sv.windows,
                                model::window_with(sv.windows, pane)->0,
                            );
                        }
                        let wid = find_window(s, pane).unwrap();
                        s.active_window = wid;
                        match maps::map_get_mut(&mut s.windows, wid) {
                            Some(w) => {
                                w.active_pane = pane;
                            },
                            None => {},
                        }
                    },
                    None => {},
                }
                proof {
                    assert(self@.sessions =~= model::pane_focused(was, pane).0.sessions);
                }
                MuxOutcome::changed()
            },
        }
    }

    pub fn new_session(&mut self, name: Option<String>) -> (r: (PaneId, MuxOutcome))
        requires
            old(self)@.wf(),
            old(self)@.next_id <= u32::MAX - 3,
        ensures
            r.0 == old(self)@.next_id,
            r.1@ == OutcomeView::opened(old(self)@.next_id),
            final(self)@ == model::session_opened(old(self)@, error::opt_text(name)),
            final(self)@.wf(),
    {
        let ghost was = self@;
        let ghost given = error::opt_text(name);
        proof {
            soundness::adding_a_session_keeps_order(was, given);
        }
        let pane = self.next_id;
        let name = match name {
            Some(n) => n,
            None => {
                let count: usize = maps::map_keys(&self.sessions).len();
                let mut n = "session".to_owned();
                text::push_number(&mut n, count as u64);
                n
            },
        };
        let sid = self.create_session(name);
        self.active_session = sid;
        (pane, MuxOutcome::opened(pane))
    }

    pub fn cycle_session(&mut self, forward: bool) -> (r: MuxOutcome)
        requires
            old(self)@.wf(),
        ensures
            r@ == OutcomeView::changed(),
            final(self)@ == model::session_cycled(old(self)@, forward),
            final(self)@.wf(),
    {
        proof {
            soundness::cycling_sessions_keeps_order(self@, forward);
        }
        let ids = maps::map_keys(&self.sessions);
        self.active_session = step_in_ring(&ids, self.active_session, forward);
        MuxOutcome::changed()
    }

    pub fn switch_session(&mut self, name: &str) -> (r: Result<MuxOutcome, String>)
        requires
            old(self)@.wf(),
        ensures
            match model::session_named(old(self)@.sessions, name@) {
                Some(i) => r matches Ok(o) && o@ == OutcomeView::changed() && final(self)@ == (
                MuxView { active_session: old(self)@.sessions[i].1.id, ..old(self)@ }),
                None => r matches Err(msg) && final(self)@ == old(self)@ && msg@
                    == "no session named `"@ + name@ + "`"@,
            },
            final(self)@.wf(),
    {
        let ghost all = self@.sessions;
        let ids = maps::map_keys(&self.sessions);
        let mut i: usize = 0;
        while i < ids.len()
            invariant
                self@.wf(),
                self@ == old(self)@,
                all == self@.sessions,
                ids@ == maps::keys_of(all),
                i <= ids@.len(),
                model::session_named(all.take(i as int), name@) is None,
            decreases ids@.len() - i,
        {
            proof {
                maps::key_at_index(all, i as int);
                assert(all.take(i + 1).drop_last() =~= all.take(i as int));
                assert(all.take(i + 1).last() == all[i as int]);
                assert(soundness::session_ok(all[i as int], self@.next_id));
            }
            let s = maps::map_get(&self.sessions, ids[i]).unwrap();
            if text::same_text(s.name.as_str(), name) {
                proof {
                    session_name_found(all, name@, i as int);
                    soundness::switching_keeps_order(self@, i as int);
                }
                let sid = s.id;
                self.active_session = sid;
                return Ok(MuxOutcome::changed());
            }
            i = i + 1;
        }
        proof {
            assert(all.take(all.len() as int) =~= all);
        }
        Err(text::around("no session named `", name, "`"))
    }

    /// Focus a window of the active session (status-bar tab click). No-op if the
    /// session has no such window.
    pub fn focus_window(&mut self, window: WindowId) -> (r: MuxOutcome)
        requires
            old(self)@.wf(),
        ensures
            (final(self)@, r@) == model::window_focused(old(self)@, window),
            final(self)@.wf(),
    {
        proof {
            soundness::the_active_exist(self@);
            soundness::focusing_a_window_keeps_order(self@, window);
        }
        if maps::map_get(&self.active_session().windows, window).is_none() {
            return MuxOutcome::none();
        }
        self.set_active_window(window);
        MuxOutcome::changed()
    }

    /// Focus a session (dock pill click). No-op if there is no such session.
    pub fn focus_session(&mut self, session: SessionId) -> (r: MuxOutcome)
        requires
            old(self)@.wf(),
        ensures
            (final(self)@, r@) == model::session_focused(old(self)@, session),
            final(self)@.wf(),
    {
        proof {
            maps::key_at_is_first(self@.sessions, session);
            if maps::key_at(self@.sessions, session) is Some {
                let i = maps::key_at(self@.sessions, session)->0;
                assert(soundness::session_ok(self@.sessions[i], self@.next_id));
                soundness::switching_keeps_order(self@, i);
            }
        }
        if maps::map_get(&self.sessions, session).is_none() {
            return MuxOutcome::none();
        }
        self.active_session = session;
        MuxOutcome::changed()
    }

    /// Resize a split child (divider drag): `path` walks Split children from
    /// the window root; `fraction` is the new share of child `path.last()`,
    /// its right/lower sibling absorbing the difference.
    pub fn resize_split(&mut self, path: &[usize], fraction: share::Share, replies: &Replies) -> (r:
        Result<MuxOutcome, Query>)
        requires
            old(self)@.wf(),
        ensures
            match model::divider_dragged(old(self)@, path@, fraction, replies@) {
                Ok((m, o)) => r matches Ok(x) && x@ == o && final(self)@ == m,
                Err(q) => r matches Err(x) && x@ == q && final(self)@ == old(self)@,
            },
            final(self)@.wf(),
    {
        let ghost was = self@;
        proof {
            soundness::the_active_exist(was);
            soundness::dragging_keeps_order(was, path@, fraction, replies@);
        }
        let window = self.active_window();
        match layout::resize_at(&window.layout, path, fraction, replies) {
            Err(q) => Err(q),
            Ok(None) => Ok(MuxOutcome::none()),
            Ok(Some(out)) => {
                let w = window.rearranged(out, window.active_pane, window.zoomed);
                self.update_window(w);
                Ok(MuxOutcome::changed())
            },
        }
    }
}

proof fn session_found(
    all: Seq<(SessionId, SessionView)>,
    pane: PaneId,
    i: int,
)
    requires
        0 <= i < all.len(),
        model::session_with(all.take(i), pane) is None,
        model::window_with(all[i].1.windows, pane) is Some,
    ensures
        model::session_with(all, pane) == Some(i),
    decreases all.len() - i,
{
    session_found_upto(all, pane, i, all.len() as int);
    assert(all.take(all.len() as int) =~= all);
}

proof fn session_found_upto(
    all: Seq<(SessionId, SessionView)>,
    pane: PaneId,
    i: int,
    n: int,
)
    requires
        0 <= i < n <= all.len(),
        model::session_with(all.take(i), pane) is None,
        model::window_with(all[i].1.windows, pane) is Some,
    ensures
        model::session_with(all.take(n), pane) == Some(i),
    decreases n,
{
    assert(all.take(n).drop_last() =~= all.take(n - 1));
    assert(all.take(n).last() == all[n - 1]);
    if i < n - 1 {
        session_found_upto(all, pane, i, n - 1);
    }
}

proof fn session_name_found(all: Seq<(SessionId, SessionView)>, name: Seq<char>, i: int)
    requires
        0 <= i < all.len(),
        model::session_named(all.take(i), name) is None,
        all[i].1.name == name,
    ensures
        model::session_named(all, name) == Some(i),
{
    session_name_upto(all, name, i, all.len() as int);
    assert(all.take(all.len() as int) =~= all);
}

proof fn session_name_upto(
    all: Seq<(SessionId, SessionView)>,
    name: Seq<char>,
    i: int,
    n: int,
)
    requires
        0 <= i < n <= all.len(),
        model::session_named(all.take(i), name) is None,
        all[i].1.name == name,
    ensures
        model::session_named(all.take(n), name) == Some(i),
    decreases n,
{
    assert(all.take(n).drop_last() =~= all.take(n - 1));
    assert(all.take(n).last() == all[n - 1]);
    if i < n - 1 {
        session_name_upto(all, name, i, n - 1);
    }
}

proof fn window_found(all: Seq<(WindowId, WindowView)>, pane: PaneId, j: int, n: int)
    requires
        0 <= j < n <= all.len(),
        model::window_with(all.take(j), pane) is None,
        layout::leaves_of(all[j].1.layout).contains(pane),
    ensures
        model::window_with(all.take(n), pane) == Some(j),
    decreases n,
{
    assert(all.take(n).drop_last() =~= all.take(n - 1));
    assert(all.take(n).last() == all[n - 1]);
    if j < n - 1 {
        window_found(all, pane, j, n - 1);
    }
}

/// The first window of a session that shows a pane.
fn find_window(s: &Session, pane: PaneId) -> (r: Option<WindowId>)
    requires
        maps::distinct_keys(s@.windows),
    ensures
        match r {
            Some(wid) => model::window_with(s@.windows, pane) is Some && wid
                == s@.windows[model::window_with(s@.windows, pane)->0].0,
            None => model::window_with(s@.windows, pane) is None,
        },
{
    let ghost all = s@.windows;
    let ids = maps::map_keys(&s.windows);
    let mut j: usize = 0;
    while j < ids.len()
        invariant
            all == s@.windows,
            maps::distinct_keys(all),
            ids@ == maps::keys_of(all),
            j <= ids@.len(),
            model::window_with(all.take(j as int), pane) is None,
        decreases ids@.len() - j,
    {
        proof {
            maps::key_at_index(all, j as int);
            assert(all.take(j + 1).drop_last() =~= all.take(j as int));
            assert(all.take(j + 1).last() == all[j as int]);
        }
        let w = maps::map_get(&s.windows, ids[j]).unwrap();
        let order = layout::leaves(&w.layout);
        if layout::is_among(&order, pane) {
            proof {
                window_found(all, pane, j as int, all.len() as int);
                assert(all.take(all.len() as int) =~= all);
            }
            return Some(ids[j]);
        }
        j = j + 1;
    }
    proof {
        assert(all.take(all.len() as int) =~= all);
    }
    None
}

/// Where an id stands among others.
fn find_place(ids: &Vec<u32>, x: u32) -> (r: Option<usize>)
    ensures
        match r {
            Some(i) => model::place_of(ids@, x) == Some(i as int) && i < ids@.len(),
            None => model::place_of(ids@, x) is None,
        },
{
    proof {
        model::place_of_is_first(ids@, x);
    }
    let mut i: usize = 0;
    while i < ids.len()
        invariant
            i <= ids@.len(),
            forall|k: int| 0 <= k < i ==> #[trigger] ids@[k] != x,
            match model::place_of(ids@, x) {
                Some(p) => 0 <= p < ids@.len() && ids@[p] == x && forall|j: int|
                    0 <= j < p ==> #[trigger] ids@[j] != x,
                None => !ids@.contains(x),
            },
        decreases ids@.len() - i,
    {
        if ids[i] == x {
            proof {
                assert(ids@.contains(x));
            }
            return Some(i);
        }
        i = i + 1;
    }
    None
}

/// The id that follows, or precedes, another in a ring.
fn step_in_ring(ids: &Vec<u32>, current: u32, forward: bool) -> (r: u32)
    ensures
        r == model::neighbour(ids@, current, forward),
{
    let n: usize = ids.len();
    if n <= 1 {
        return current;
    }
    let at: usize = match find_place(ids, current) {
        Some(i) => i,
        None => 0,
    };
    if forward {
        if at + 1 == n {
            ids[0]
        } else {
            ids[at + 1]
        }
    } else {
        if at == 0 {
            ids[n - 1]
        } else {
            ids[at - 1]
        }
    }
}

fn find_center(r: layout::Rect, replies: &Replies) -> (c: Result<
    (share::Share, share::Share),
    Query,
>)
    ensures
        match c {
            Ok(x) => model::center(r, replies@) == Ok::<(share::Share, share::Share), QueryView>(
                x,
            ),
            Err(q) => model::center(r, replies@) == Err::<(share::Share, share::Share), QueryView>(
                q@,
            ),
        },
{
    let two = share::Share { bits: share::TWO };
    let half_w = match share::compute(FloatOp::Div, r.w, two, replies) {
        Ok(x) => x,
        Err(q) => {
            return Err(q);
        },
    };
    let cx = match share::compute(FloatOp::Add, r.x, half_w, replies) {
        Ok(x) => x,
        Err(q) => {
            return Err(q);
        },
    };
    let half_h = match share::compute(FloatOp::Div, r.h, two, replies) {
        Ok(x) => x,
        Err(q) => {
            return Err(q);
        },
    };
    let cy = match share::compute(FloatOp::Add, r.y, half_h, replies) {
        Ok(x) => x,
        Err(q) => {
            return Err(q);
        },
    };
    Ok((cx, cy))
}

fn find_lies(
    dir: FocusDir,
    from: (share::Share, share::Share),
    c: (share::Share, share::Share),
    replies: &Replies,
) -> (r: Result<bool, Query>)
    ensures
        match r {
            Ok(b) => model::lies(dir, from, c, replies@) == Ok::<bool, QueryView>(b),
            Err(q) => model::lies(dir, from, c, replies@) == Err::<bool, QueryView>(q@),
        },
{
    let gap = share::Share { bits: share::HUNDREDTH };
    match dir {
        FocusDir::Left => match share::compute(FloatOp::Sub, from.0, gap, replies) {
            Ok(edge) => Ok(c.0.less(&edge)),
            Err(q) => Err(q),
        },
        FocusDir::Right => match share::compute(FloatOp::Add, from.0, gap, replies) {
            Ok(edge) => Ok(edge.less(&c.0)),
            Err(q) => Err(q),
        },
        FocusDir::Up => match share::compute(FloatOp::Sub, from.1, gap, replies) {
            Ok(edge) => Ok(c.1.less(&edge)),
            Err(q) => Err(q),
        },
        FocusDir::Down => match share::compute(FloatOp::Add, from.1, gap, replies) {
            Ok(edge) => Ok(edge.less(&c.1)),
            Err(q) => Err(q),
        },
        FocusDir::Next => Ok(false),
    }
}

fn dist2(
    a: (share::Share, share::Share),
    b: (share::Share, share::Share),
    replies: &Replies,
) -> (r: Result<share::Share, Query>)
    ensures
        share::share_result(r) == model::dist2(a, b, replies@),
{
    let dx = match share::compute(FloatOp::Sub, a.0, b.0, replies) {
        Ok(x) => x,
        Err(q) => {
            return Err(q);
        },
    };
    let dy = match share::compute(FloatOp::Sub, a.1, b.1, replies) {
        Ok(x) => x,
        Err(q) => {
            return Err(q);
        },
    };
    let xx = match share::compute(FloatOp::Mul, dx, dx, replies) {
        Ok(x) => x,
        Err(q) => {
            return Err(q);
        },
    };
    let yy = match share::compute(FloatOp::Mul, dy, dy, replies) {
        Ok(x) => x,
        Err(q) => {
            return Err(q);
        },
    };
    share::compute(FloatOp::Add, xx, yy, replies)
}

fn find_reach(
    r: layout::Placed,
    current: PaneId,
    dir: FocusDir,
    from: (share::Share, share::Share),
    replies: &Replies,
) -> (d: Result<Option<share::Share>, Query>)
    ensures
        match d {
            Ok(x) => model::reach(r, current, dir, from, replies@) == Ok::<
                Option<share::Share>,
                QueryView,
            >(x),
            Err(q) => model::reach(r, current, dir, from, replies@) == Err::<
                Option<share::Share>,
                QueryView,
            >(q@),
        },
{
    if r.0 == current {
        return Ok(None);
    }
    let c = match find_center(r.1, replies) {
        Ok(c) => c,
        Err(q) => {
            return Err(q);
        },
    };
    match find_lies(dir, from, c, replies) {
        Err(q) => Err(q),
        Ok(b) => {
            if !b {
                return Ok(None);
            }
            match dist2(from, c, replies) {
                Ok(d) => Ok(Some(d)),
                Err(q) => Err(q),
            }
        },
    }
}

proof fn nearest_failure_stays(
    rects: Seq<layout::Placed>,
    n: nat,
    m: nat,
    current: PaneId,
    dir: FocusDir,
    from: (share::Share, share::Share),
    replies: ReplySeq,
)
    requires
        n <= m <= rects.len(),
        model::nearest_upto(rects, n, current, dir, from, replies) is Err,
    ensures
        model::nearest_upto(rects, m, current, dir, from, replies) == model::nearest_upto(
            rects,
            n,
            current,
            dir,
            from,
            replies,
        ),
    decreases m - n,
{
    if n < m {
        nearest_failure_stays(rects, n, (m - 1) as nat, current, dir, from, replies);
    }
}

fn find_nearest(
    rects: &Vec<layout::Placed>,
    current: PaneId,
    dir: FocusDir,
    from: (share::Share, share::Share),
    replies: &Replies,
) -> (r: Result<Option<(PaneId, share::Share)>, Query>)
    ensures
        ({
            let goal = model::nearest_upto(
                rects@,
                rects@.len(),
                current,
                dir,
                from,
                replies@,
            );
            match r {
                Ok(x) => goal == Ok::<Option<(PaneId, share::Share)>, QueryView>(x),
                Err(q) => goal == Err::<Option<(PaneId, share::Share)>, QueryView>(q@),
            }
        }),
{
    let mut best: Option<(PaneId, share::Share)> = None;
    let mut i: usize = 0;
    while i < rects.len()
        invariant
            i <= rects@.len(),
            model::nearest_upto(rects@, i as nat, current, dir, from, replies@) == Ok::<
                Option<(PaneId, share::Share)>,
                QueryView,
            >(best),
        decreases rects@.len() - i,
    {
        match find_reach(rects[i], current, dir, from, replies) {
            Err(q) => {
                proof {
                    nearest_failure_stays(
                        rects@,
                        (i + 1) as nat,
                        rects@.len(),
                        current,
                        dir,
                        from,
                        replies@,
                    );
                }
                return Err(q);
            },
            Ok(None) => {},
            Ok(Some(d)) => {
                match best {
                    Some((_, e)) => {
                        if d.less(&e) {
                            best = Some((rects[i].0, d));
                        }
                    },
                    None => {
                        best = Some((rects[i].0, d));
                    },
                }
            },
        }
        i = i + 1;
    }
    Ok(best)
}

fn ids_of(rects: &Vec<layout::Placed>) -> (r: Vec<PaneId>)
    ensures
        r@ == layout::placed_ids(rects@),
{
    let mut out: Vec<PaneId> = Vec::new();
    let mut i: usize = 0;
    while i < rects.len()
        invariant
            i <= rects@.len(),
            out@.len() == i,
            forall|k: int| 0 <= k < i ==> #[trigger] out@[k] == rects@[k].0,
        decreases rects@.len() - i,
    {
        out.push(rects[i].0);
        i = i + 1;
    }
    proof {
        assert(out@ =~= layout::placed_ids(rects@));
    }
    out
}

/// The pane that focus moves to, if it moves.
fn find_focus(w: &Window, dir: FocusDir, replies: &Replies) -> (r: Result<Option<PaneId>, Query>)
    ensures
        match r {
            Ok(x) => model::focus_target(w@, dir, replies@) == Ok::<Option<PaneId>, QueryView>(x),
            Err(q) => model::focus_target(w@, dir, replies@) == Err::<Option<PaneId>, QueryView>(
                q@,
            ),
        },
{
    let order = layout::leaves(&w.layout);
    if order.len() <= 1 {
        return Ok(None);
    }
    if dir == FocusDir::Next {
        let from = match find_place(&order, w.active_pane) {
            Some(_) => w.active_pane,
            None => order[0],
        };
        return Ok(Some(step_in_ring(&order, from, true)));
    }
    let rects = match layout::layout(&w.layout, layout::Rect::full(), replies) {
        Ok(x) => x,
        Err(q) => {
            return Err(q);
        },
    };
    let ids = ids_of(&rects);
    let at = match find_place(&ids, w.active_pane) {
        Some(i) => i,
        None => {
            return Ok(None);
        },
    };
    let from = match find_center(rects[at].1, replies) {
        Ok(c) => c,
        Err(q) => {
            return Err(q);
        },
    };
    match find_nearest(&rects, w.active_pane, dir, from, replies) {
        Ok(Some((p, _))) => Ok(Some(p)),
        Ok(None) => Ok(None),
        Err(q) => Err(q),
    }
}

/// The rectangles of a window: a zoomed pane takes all of it.
pub open spec fn window_rects(w: WindowView, rect: layout::Rect, replies: ReplySeq) -> Result<
    Seq<layout::Placed>,
    QueryView,
> {
    match w.zoomed {
        Some(p) => Ok(seq![(p, rect)]),
        None => layout::laid_out(w.layout, rect, replies),
    }
}

/// Layout honoring zoom: a zoomed pane takes the full rect.
pub fn layout_window(window: &Window, rect: layout::Rect, replies: &Replies) -> (r: Result<
    Vec<layout::Placed>,
    Query,
>)
    ensures
        layout::placed_result(r) == window_rects(window@, rect, replies@),
{
    match window.zoomed {
        Some(p) => {
            let out = vec![(p, rect)];
            proof {
                assert(out@ =~= seq![(p, rect)]);
            }
            Ok(out)
        },
        None => layout::layout(&window.layout, rect, replies),
    }
}

} // verus!
