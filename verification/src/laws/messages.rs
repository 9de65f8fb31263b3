//! What the page's messages come to.

use crate::ask::ReplySeq;
use crate::engine;
use crate::engine::EngineView;
use crate::laws::panes;
use crate::mux::keys;
use crate::mux::maps;
use crate::mux::model;
use crate::mux::soundness;
use crate::protocol::{EventView, HostMsg};
use vstd::prelude::*;

verus! {

/// The prefix chord arms the next key: that key runs the line it is bound to in the
/// active pane, and no key behind it runs anything. The page is told each time.
pub proof fn the_prefix_arms_one_key(
    e: EngineView,
    first: String,
    second: String,
    replies: ReplySeq,
)
    ensures
        engine::handled(e, HostMsg::PrefixKey, replies) matches Ok(armed) && {
            &&& armed.result.run is None
            &&& armed.engine.events == e.events + seq![EventView::PrefixState { active: true }]
            &&& armed.engine.mux == e.mux
            &&& engine::handled(armed.engine, HostMsg::Key { key: first }, replies) matches Ok(one)
            &&& one.engine.mux == e.mux
            &&& one.engine.events == armed.engine.events + seq![
                EventView::PrefixState { active: false },
            ]
            &&& match keys::bound_to(first@) {
                Some(line) => one.result.run == Some((panes::active(e.mux), line)),
                None => one.result.run is None,
            }
            &&& engine::handled(one.engine, HostMsg::Key { key: second }, replies) matches Ok(two)
            &&& two.result.run is None
            &&& two.engine.mux == e.mux
        },
{
}

/// A click into a pane makes it the active one; the page is told of a new picture,
/// and of no pane that opened or closed.
pub proof fn clicks_focus_their_pane(e: EngineView, pane: u32, replies: ReplySeq)
    requires
        e.wf(),
        soundness::is_shown(e.mux, pane),
    ensures
        engine::handled(e, HostMsg::FocusPane { pane }, replies) matches Ok(h) ==> {
            &&& panes::active(h.engine.mux) == pane
            &&& h.engine.mux.panes == e.mux.panes
            &&& h.result.run is None
            &&& h.result.closed_panes.len() == 0
            &&& engine::pictured(h.engine.mux, replies) matches Ok(snapshot)
            &&& h.engine.events == e.events + seq![EventView::LayoutChanged { snapshot }]
        },
{
    panes::choosing_a_pane_shows_it(e.mux, pane);
    if let Ok(h) = engine::handled(e, HostMsg::FocusPane { pane }, replies) {
        nothing_opened(e, model::pane_focused(e.mux, pane), replies);
    }
}

proof fn nothing_opened(
    e: EngineView,
    r: (model::MuxView, model::OutcomeView),
    replies: ReplySeq,
)
    requires
        r.1.opened_panes.len() == 0,
        r.1.closed_panes.len() == 0,
        r.1.closed_sessions.len() == 0,
    ensures
        engine::in_mux(e, r, replies) matches Ok(h) ==> {
            &&& h.engine.mux == r.0
            &&& h.result.run is None
            &&& h.result.closed_panes.len() == 0
            &&& r.1.layout_changed ==> (engine::pictured(r.0, replies) matches Ok(snapshot)
                && h.engine.events == e.events + seq![EventView::LayoutChanged { snapshot }])
            &&& !r.1.layout_changed ==> h.engine.events == e.events
        },
{
    let first = engine::opened_events(r.0, r.1.opened_panes) + engine::closed_events(
        r.1.closed_panes,
    ) + engine::session_events(r.1.closed_sessions);
    assert(first =~= Seq::empty());
    if let Ok(h) = engine::in_mux(e, r, replies) {
        if r.1.layout_changed {
            let snapshot = engine::pictured(r.0, replies)->Ok_0;
            assert(first.push(EventView::LayoutChanged { snapshot }) =~= seq![
                EventView::LayoutChanged { snapshot },
            ]);
        } else {
            assert(e.events + first =~= e.events);
        }
    }
}

/// A click on a window's tab or a session's pill makes it the active one; one that is
/// not there changes nothing.
pub proof fn clicks_focus_windows_and_sessions(
    e: EngineView,
    window: u32,
    session: u32,
    replies: ReplySeq,
)
    requires
        e.wf(),
    ensures
        engine::handled(e, HostMsg::FocusSession { session }, replies) matches Ok(h) ==> {
            let there = exists|i: int|
                0 <= i < e.mux.sessions.len() && (#[trigger] e.mux.sessions[i]).0 == session;
            &&& there ==> h.engine.mux.active_session == session
            &&& !there ==> h.engine.mux == e.mux && h.engine.events == e.events
            &&& h.engine.mux.sessions == e.mux.sessions
            &&& h.engine.mux.panes == e.mux.panes
        },
        engine::handled(e, HostMsg::FocusWindow { window }, replies) matches Ok(h) ==> {
            let windows = model::session_of(e.mux).windows;
            let there = exists|j: int|
                0 <= j < windows.len() && (#[trigger] windows[j]).0 == window;
            &&& there ==> model::session_of(h.engine.mux).active_window == window
            &&& !there ==> h.engine.mux == e.mux && h.engine.events == e.events
            &&& model::session_of(h.engine.mux).windows == windows
            &&& h.engine.mux.panes == e.mux.panes
        },
{
    let m = e.mux;
    maps::key_at_is_first(m.sessions, session);
    let to_session = model::session_focused(m, session);
    nothing_opened(e, to_session, replies);
    if let Some(i) = maps::key_at(m.sessions, session) {
        assert(m.sessions[i].0 == session);
    }
    soundness::the_active_exist(m);
    let s = model::session_of(m);
    maps::key_at_is_first(s.windows, window);
    let to_window = model::window_focused(m, window);
    nothing_opened(e, to_window, replies);
    if let Some(j) = maps::key_at(s.windows, window) {
        assert(s.windows[j].0 == window);
        let n = to_window.0;
        let i = maps::key_at(m.sessions, m.active_session)->0;
        maps::key_at_is_first(m.sessions, m.active_session);
        maps::key_at_is_first(n.sessions, m.active_session);
        assert(n.sessions[i].0 == m.active_session);
        let k = maps::key_at(n.sessions, m.active_session)->0;
        assert(k == i) by {
            if k < i {
                assert(n.sessions[k] == m.sessions[k]);
            }
        }
    }
}

} // verus!
