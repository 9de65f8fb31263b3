//! What holds of the multiplexer at any time, and that every operation keeps
//! it: there is at least one session, window and pane; whatever is active
//! exists; and the panes are exactly those that some window shows, each of
//! them once.

use crate::ask::{QueryView, ReplySeq};
use crate::mux::layout;
use crate::mux::maps;
use crate::mux::model;
use crate::mux::model::{MuxView, SessionView, WindowView};
use crate::mux::share::Share;
use crate::mux::tree::{Dir, LayoutView, PaneId};
use crate::mux::{FocusDir, SessionId, WindowId};
use vstd::prelude::*;

verus! {

/// Does the `j`-th window of the `i`-th session show a pane?
pub open spec fn shows(m: MuxView, i: int, j: int, p: PaneId) -> bool {
    &&& 0 <= i < m.sessions.len()
    &&& 0 <= j < m.sessions[i].1.windows.len()
    &&& layout::leaves_of(m.sessions[i].1.windows[j].1.layout).contains(p)
}

/// Does some window show a pane?
pub open spec fn is_shown(m: MuxView, p: PaneId) -> bool {
    exists|i: int, j: int| shows(m, i, j, p)
}

/// A window shows no pane twice, and shows the ones it calls active and zoomed.
pub open spec fn window_ok(w: (WindowId, WindowView), next_id: u32) -> bool {
    let order = layout::leaves_of(w.1.layout);
    &&& w.0 == w.1.id
    &&& w.0 < next_id
    &&& order.no_duplicates()
    &&& order.contains(w.1.active_pane)
    &&& w.1.zoomed matches Some(p) ==> order.contains(p)
}

pub open spec fn session_ok(s: (SessionId, SessionView), next_id: u32) -> bool {
    &&& s.0 == s.1.id
    &&& s.0 < next_id
    &&& maps::distinct_keys(s.1.windows)
    &&& maps::key_at(s.1.windows, s.1.active_window) is Some
    &&& forall|j: int|
        0 <= j < s.1.windows.len() ==> window_ok(#[trigger] s.1.windows[j], next_id)
}

impl MuxView {
    /// The sessions and their windows are in order.
    pub open spec fn sessions_ok(self) -> bool {
        &&& maps::distinct_keys(self.sessions)
        &&& forall|i: int|
            0 <= i < self.sessions.len() ==> session_ok(#[trigger] self.sessions[i], self.next_id)
    }

    /// The panes are in order.
    pub open spec fn panes_ok(self) -> bool {
        &&& maps::distinct_keys(self.panes)
        &&& forall|k: int|
            0 <= k < self.panes.len() ==> (#[trigger] self.panes[k]).0 < self.next_id
                && self.panes[k].1.editor.wf()
    }

    /// What the windows show are the panes there are, and no pane is shown by
    /// two windows.
    pub open spec fn shown_ok(self) -> bool {
        &&& forall|i: int, j: int, p: PaneId| #[trigger]
            shows(self, i, j, p) ==> maps::key_at(self.panes, p) is Some
        &&& forall|k: int|
            0 <= k < self.panes.len() ==> is_shown(self, (#[trigger] self.panes[k]).0)
        &&& forall|i: int, j: int, k: int, l: int, p: PaneId| #[trigger]
            shows(self, i, j, p) && #[trigger] shows(self, k, l, p) ==> i == k && j == l
    }

    pub open spec fn orderly(self) -> bool {
        self.sessions_ok() && self.panes_ok() && self.shown_ok()
    }

    /// What holds of a multiplexer at any time.
    pub open spec fn wf(self) -> bool {
        self.orderly() && maps::key_at(self.sessions, self.active_session) is Some
    }
}

/// The active session and its active window exist and are in order.
pub proof fn the_active_exist(m: MuxView)
    requires
        m.wf(),
    ensures
        ({
            let i = maps::key_at(m.sessions, m.active_session)->0;
            let s = model::session_of(m);
            let j = maps::key_at(s.windows, s.active_window)->0;
            &&& 0 <= i < m.sessions.len()
            &&& m.sessions[i] == (m.active_session, s)
            &&& session_ok((m.active_session, s), m.next_id)
            &&& 0 <= j < s.windows.len()
            &&& s.windows[j] == (s.active_window, model::window_of(m))
            &&& window_ok((s.active_window, model::window_of(m)), m.next_id)
        }),
{
    maps::key_at_is_first(m.sessions, m.active_session);
    let i = maps::key_at(m.sessions, m.active_session)->0;
    assert(session_ok(m.sessions[i], m.next_id));
    let s = model::session_of(m);
    maps::key_at_is_first(s.windows, s.active_window);
    let j = maps::key_at(s.windows, s.active_window)->0;
    assert(window_ok(s.windows[j], m.next_id));
}

/// The same sessions and windows show the same panes.
pub open spec fn same_shape(m: MuxView, n: MuxView) -> bool {
    &&& n.sessions.len() == m.sessions.len()
    &&& forall|i: int|
        0 <= i < m.sessions.len() ==> (#[trigger] n.sessions[i]).0 == m.sessions[i].0
            && n.sessions[i].1.windows.len() == m.sessions[i].1.windows.len()
    &&& forall|i: int, j: int|
        0 <= i < m.sessions.len() && 0 <= j < m.sessions[i].1.windows.len()
            ==> layout::leaves_of((#[trigger] n.sessions[i].1.windows[j]).1.layout)
            == layout::leaves_of(m.sessions[i].1.windows[j].1.layout)
}

pub open spec fn same_panes(m: MuxView, n: MuxView) -> bool {
    &&& n.panes.len() == m.panes.len()
    &&& forall|k: int|
        0 <= k < m.panes.len() ==> (#[trigger] n.panes[k]).0 == m.panes[k].0
            && n.panes[k].1.editor.wf()
}

proof fn same_keys<V>(a: Seq<(u32, V)>, b: Seq<(u32, V)>, k: u32)
    requires
        a.len() == b.len(),
        forall|i: int| 0 <= i < a.len() ==> (#[trigger] a[i]).0 == b[i].0,
    ensures
        maps::key_at(a, k) == maps::key_at(b, k),
    decreases a.len(),
{
    if a.len() > 0 {
        same_keys(a.drop_last(), b.drop_last(), k);
        assert(a.last() == a[a.len() - 1]);
    }
}

proof fn reshaping_keeps_order(m: MuxView, n: MuxView)
    requires
        m.wf(),
        same_shape(m, n),
        same_panes(m, n),
        n.next_id == m.next_id,
        maps::key_at(n.sessions, n.active_session) is Some,
        forall|i: int|
            0 <= i < n.sessions.len() ==> session_ok(#[trigger] n.sessions[i], n.next_id),
    ensures
        n.wf(),
{
    assert forall|i: int, j: int, p: PaneId| #[trigger] shows(n, i, j, p) implies shows(
        m,
        i,
        j,
        p,
    ) by {
        assert(layout::leaves_of(n.sessions[i].1.windows[j].1.layout) == layout::leaves_of(
            m.sessions[i].1.windows[j].1.layout,
        ));
        assert(n.sessions[i].0 == m.sessions[i].0);
    }
    assert forall|i: int, j: int, p: PaneId| #[trigger] shows(m, i, j, p) implies shows(
        n,
        i,
        j,
        p,
    ) by {
        assert(n.sessions[i].0 == m.sessions[i].0);
        assert(layout::leaves_of(n.sessions[i].1.windows[j].1.layout) == layout::leaves_of(
            m.sessions[i].1.windows[j].1.layout,
        ));
    }
    assert(maps::distinct_keys(n.sessions)) by {
        assert forall|i: int, j: int| 0 <= i < j < n.sessions.len() implies (
        #[trigger] n.sessions[i]).0 != (#[trigger] n.sessions[j]).0 by {
            assert(m.sessions[i].0 != m.sessions[j].0);
        }
    }
    assert(maps::distinct_keys(n.panes)) by {
        assert forall|i: int, j: int| 0 <= i < j < n.panes.len() implies (
        #[trigger] n.panes[i]).0 != (#[trigger] n.panes[j]).0 by {
            assert(m.panes[i].0 != m.panes[j].0);
        }
    }
    assert forall|k: int| 0 <= k < n.panes.len() implies (#[trigger] n.panes[k]).0 < n.next_id
        && n.panes[k].1.editor.wf() by {
        assert(m.panes[k].0 < m.next_id);
    }
    assert forall|i: int, j: int, p: PaneId| #[trigger] shows(n, i, j, p) implies maps::key_at(
        n.panes,
        p,
    ) is Some by {
        assert(shows(m, i, j, p));
        same_keys(n.panes, m.panes, p);
    }
    assert forall|k: int| 0 <= k < n.panes.len() implies is_shown(
        n,
        (#[trigger] n.panes[k]).0,
    ) by {
        assert(n.panes[k].0 == m.panes[k].0);
        let (i, j) = choose|i: int, j: int| shows(m, i, j, m.panes[k].0);
        assert(shows(n, i, j, n.panes[k].0));
    }
    assert forall|i: int, j: int, k: int, l: int, p: PaneId| #[trigger]
        shows(n, i, j, p) && #[trigger] shows(n, k, l, p) implies i == k && j == l by {
        assert(shows(m, i, j, p));
        assert(shows(m, k, l, p));
    }
}

/// Replacing the active window by one that shows the same panes keeps the
/// order.
proof fn same_window_panes_keep_order(m: MuxView, w: WindowView)
    requires
        m.wf(),
        layout::leaves_of(w.layout) == layout::leaves_of(model::window_of(m).layout),
        w.id == model::window_of(m).id,
        layout::leaves_of(w.layout).contains(w.active_pane),
        w.zoomed matches Some(p) ==> layout::leaves_of(w.layout).contains(p),
    ensures
        model::with_window(m, w).wf(),
{
    the_active_exist(m);
    let n = model::with_window(m, w);
    let a = maps::key_at(m.sessions, m.active_session)->0;
    let s = model::session_of(m);
    let b = maps::key_at(s.windows, s.active_window)->0;
    let t = n.sessions[a].1;
    assert(t.windows == s.windows.update(b, (s.active_window, w)));
    same_keys(t.windows, s.windows, s.active_window);
    assert(session_ok(n.sessions[a], n.next_id)) by {
        assert forall|j: int| 0 <= j < t.windows.len() implies window_ok(
            #[trigger] t.windows[j],
            n.next_id,
        ) by {
            assert(window_ok(s.windows[j], m.next_id));
        }
        assert forall|i: int, j: int| 0 <= i < j < t.windows.len() implies (
        #[trigger] t.windows[i]).0 != (#[trigger] t.windows[j]).0 by {
            assert(s.windows[i].0 != s.windows[j].0);
        }
    }
    assert forall|i: int| 0 <= i < n.sessions.len() implies session_ok(
        #[trigger] n.sessions[i],
        n.next_id,
    ) by {
        if i != a {
            assert(n.sessions[i] == m.sessions[i]);
        }
    }
    same_keys(n.sessions, m.sessions, m.active_session);
    assert(same_shape(m, n));
    reshaping_keeps_order(m, n);
}

pub proof fn changing_a_pane_keeps_order(m: MuxView, id: PaneId, pane: model::PaneView)
    requires
        m.wf(),
        maps::key_at(m.panes, id) is Some,
        pane.editor.wf(),
    ensures
        (MuxView { panes: maps::put(m.panes, id, pane), ..m }).wf(),
{
    maps::key_at_is_first(m.panes, id);
    let n = MuxView { panes: maps::put(m.panes, id, pane), ..m };
    assert(same_shape(m, n));
    assert forall|k: int| 0 <= k < m.panes.len() implies (#[trigger] n.panes[k]).0 == m.panes[k].0
        && n.panes[k].1.editor.wf() by {
        assert(m.panes[k].1.editor.wf());
    }
    reshaping_keeps_order(m, n);
}

pub proof fn changing_vars_keeps_order(
    m: MuxView,
    session: SessionId,
    vars: crate::expr::ScopeSeq,
)
    requires
        m.wf(),
        maps::key_at(m.sessions, session) is Some,
    ensures
        ({
            let i = maps::key_at(m.sessions, session)->0;
            (MuxView {
                sessions: m.sessions.update(
                    i,
                    (session, SessionView { vars, ..m.sessions[i].1 }),
                ),
                ..m
            }).wf()
        }),
{
    maps::key_at_is_first(m.sessions, session);
    let a = maps::key_at(m.sessions, session)->0;
    let n = MuxView {
        sessions: m.sessions.update(a, (session, SessionView { vars, ..m.sessions[a].1 })),
        ..m
    };
    assert forall|i: int| 0 <= i < n.sessions.len() implies session_ok(
        #[trigger] n.sessions[i],
        n.next_id,
    ) by {
        assert(session_ok(m.sessions[i], m.next_id));
    }
    same_keys(n.sessions, m.sessions, m.active_session);
    panes_stay(m);
    reshaping_keeps_order(m, n);
}

pub proof fn zooming_keeps_order(m: MuxView)
    requires
        m.wf(),
    ensures
        model::zoom_toggled(m).wf(),
{
    the_active_exist(m);
    let w = model::window_of(m);
    same_window_panes_keep_order(
        m,
        WindowView {
            zoomed: match w.zoomed {
                Some(_) => None,
                None => Some(w.active_pane),
            },
            ..w
        },
    );
}

/// Toggling the zoom twice restores a window that was not zoomed.
pub proof fn zooming_twice_restores(m: MuxView)
    requires
        m.wf(),
        model::window_of(m).zoomed is None,
    ensures
        model::zoom_toggled(model::zoom_toggled(m)) == m,
{
    the_active_exist(m);
    zooming_keeps_order(m);
    let n = model::zoom_toggled(m);
    the_active_exist(n);
    let a = maps::key_at(m.sessions, m.active_session)->0;
    let s = model::session_of(m);
    let b = maps::key_at(s.windows, s.active_window)->0;
    same_keys(n.sessions, m.sessions, m.active_session);
    let t = n.sessions[a].1;
    same_keys(t.windows, s.windows, s.active_window);
    let back = model::zoom_toggled(n);
    assert(back.sessions[a].1.windows =~= s.windows);
    assert(back.sessions =~= m.sessions);
    assert(back =~= m);
}

proof fn focus_stays_in_the_window(w: WindowView, dir: FocusDir, replies: ReplySeq)
    requires
        layout::leaves_of(w.layout).no_duplicates(),
        layout::leaves_of(w.layout).contains(w.active_pane),
    ensures
        model::focus_target(w, dir, replies) matches Ok(Some(p)) ==> layout::leaves_of(
            w.layout,
        ).contains(p),
{
    let order = layout::leaves_of(w.layout);
    if order.len() > 1 {
        if dir == FocusDir::Next {
            model::place_of_is_first(order, w.active_pane);
            model::cycling_is_invertible(order, w.active_pane, true);
        } else {
            match layout::laid_out(w.layout, layout::Rect::whole(), replies) {
                Ok(rects) => {
                    layout::layout_places_every_pane(w.layout, layout::Rect::whole(), replies);
                    match model::rect_of(rects, w.active_pane) {
                        Some(r) => match model::center(r, replies) {
                            Ok(from) => {
                                nearest_is_placed(
                                    rects,
                                    rects.len(),
                                    w.active_pane,
                                    dir,
                                    from,
                                    replies,
                                );
                            },
                            Err(_) => {},
                        },
                        None => {},
                    }
                },
                Err(_) => {},
            }
        }
    }
}

proof fn nearest_is_placed(
    rects: Seq<layout::Placed>,
    n: nat,
    current: PaneId,
    dir: FocusDir,
    from: (Share, Share),
    replies: ReplySeq,
)
    requires
        n <= rects.len(),
    ensures
        model::nearest_upto(rects, n, current, dir, from, replies) matches Ok(Some((p, _)))
            ==> layout::placed_ids(rects).contains(p) && p != current,
    decreases n,
{
    if n > 0 {
        nearest_is_placed(rects, (n - 1) as nat, current, dir, from, replies);
        assert(layout::placed_ids(rects)[n - 1] == rects[n - 1].0);
    }
}

/// Moving the focus keeps it in the window.
pub proof fn moving_focus_keeps_order(m: MuxView, dir: FocusDir, replies: ReplySeq)
    requires
        m.wf(),
    ensures
        model::focus_moved(m, dir, replies) matches Ok((n, _)) ==> n.wf(),
{
    the_active_exist(m);
    let w = model::window_of(m);
    focus_stays_in_the_window(w, dir, replies);
    match model::focus_target(w, dir, replies) {
        Ok(Some(p)) => {
            same_window_panes_keep_order(
                m,
                WindowView {
                    active_pane: p,
                    zoomed: match w.zoomed {
                        Some(_) => Some(p),
                        None => None,
                    },
                    ..w
                },
            );
        },
        _ => {},
    }
}

pub proof fn dragging_keeps_order(
    m: MuxView,
    path: Seq<usize>,
    fraction: Share,
    replies: ReplySeq,
)
    requires
        m.wf(),
    ensures
        model::divider_dragged(m, path, fraction, replies) matches Ok((n, _)) ==> n.wf(),
{
    the_active_exist(m);
    let w = model::window_of(m);
    layout::resizing_keeps_the_panes(w.layout, path, fraction, replies);
    match layout::resized(w.layout, path, fraction, replies) {
        Ok(Some(out)) => {
            same_window_panes_keep_order(m, WindowView { layout: out, ..w });
        },
        _ => {},
    }
}

proof fn keys_are_distinct<V>(entries: Seq<(u32, V)>)
    requires
        maps::distinct_keys(entries),
    ensures
        maps::keys_of(entries).no_duplicates(),
{
    let keys = maps::keys_of(entries);
    assert forall|i: int, j: int|
        0 <= i < keys.len() && 0 <= j < keys.len() && i != j implies keys[i] != keys[j] by {
        if i < j {
            assert(entries[i].0 != entries[j].0);
        } else {
            assert(entries[j].0 != entries[i].0);
        }
    }
}

proof fn key_among<V>(entries: Seq<(u32, V)>, k: u32)
    ensures
        maps::keys_of(entries).contains(k) == (maps::key_at(entries, k) is Some),
{
    maps::key_at_is_first(entries, k);
    let keys = maps::keys_of(entries);
    match maps::key_at(entries, k) {
        Some(i) => {
            assert(keys[i] == k);
        },
        None => {
            if keys.contains(k) {
                let i = choose|i: int| 0 <= i < keys.len() && keys[i] == k;
                assert(entries[i].0 == k);
            }
        },
    }
}

pub proof fn cycling_sessions_keeps_order(m: MuxView, forward: bool)
    requires
        m.wf(),
    ensures
        model::session_cycled(m, forward).wf(),
{
    keys_are_distinct(m.sessions);
    key_among(m.sessions, m.active_session);
    model::cycling_is_invertible(maps::keys_of(m.sessions), m.active_session, forward);
    let n = model::session_cycled(m, forward);
    key_among(m.sessions, n.active_session);
    panes_stay(m);
    reshaping_keeps_order(m, n);
}

proof fn panes_stay(m: MuxView)
    requires
        m.wf(),
    ensures
        forall|n: MuxView| n.panes == m.panes ==> #[trigger] same_panes(m, n),
{
    assert forall|n: MuxView| n.panes == m.panes implies #[trigger] same_panes(m, n) by {
        assert forall|k: int| 0 <= k < m.panes.len() implies (#[trigger] n.panes[k]).0
            == m.panes[k].0 && n.panes[k].1.editor.wf() by {}
    }
}

pub proof fn cycling_windows_keeps_order(m: MuxView, forward: bool)
    requires
        m.wf(),
    ensures
        model::window_cycled(m, forward).wf(),
{
    the_active_exist(m);
    let s = model::session_of(m);
    keys_are_distinct(s.windows);
    key_among(s.windows, s.active_window);
    model::cycling_is_invertible(maps::keys_of(s.windows), s.active_window, forward);
    let n = model::window_cycled(m, forward);
    let a = maps::key_at(m.sessions, m.active_session)->0;
    key_among(s.windows, n.sessions[a].1.active_window);
    assert forall|i: int| 0 <= i < n.sessions.len() implies session_ok(
        #[trigger] n.sessions[i],
        n.next_id,
    ) by {
        assert(session_ok(m.sessions[i], m.next_id));
    }
    same_keys(n.sessions, m.sessions, m.active_session);
    panes_stay(m);
    reshaping_keeps_order(m, n);
}

pub proof fn focusing_a_window_keeps_order(m: MuxView, window: WindowId)
    requires
        m.wf(),
    ensures
        model::window_focused(m, window).0.wf(),
{
    the_active_exist(m);
    let n = model::window_focused(m, window).0;
    if maps::key_at(model::session_of(m).windows, window) is Some {
        assert forall|i: int| 0 <= i < n.sessions.len() implies session_ok(
            #[trigger] n.sessions[i],
            n.next_id,
        ) by {
            assert(session_ok(m.sessions[i], m.next_id));
        }
        same_keys(n.sessions, m.sessions, m.active_session);
        panes_stay(m);
        reshaping_keeps_order(m, n);
    }
}

/// Cycling through the windows and back, or through the sessions and back,
/// restores what was active.
pub proof fn cycling_back_restores(m: MuxView, forward: bool)
    requires
        m.wf(),
    ensures
        model::session_cycled(model::session_cycled(m, forward), !forward) == m,
        model::window_cycled(model::window_cycled(m, forward), !forward) == m,
{
    keys_are_distinct(m.sessions);
    key_among(m.sessions, m.active_session);
    model::cycling_is_invertible(maps::keys_of(m.sessions), m.active_session, forward);
    assert(model::session_cycled(model::session_cycled(m, forward), !forward) =~= m);
    the_active_exist(m);
    let s = model::session_of(m);
    keys_are_distinct(s.windows);
    key_among(s.windows, s.active_window);
    model::cycling_is_invertible(maps::keys_of(s.windows), s.active_window, forward);
    let n = model::window_cycled(m, forward);
    same_keys(n.sessions, m.sessions, m.active_session);
    let back = model::window_cycled(n, !forward);
    assert(back.sessions =~= m.sessions);
    assert(back =~= m);
}

pub proof fn switching_keeps_order(m: MuxView, i: int)
    requires
        m.wf(),
        0 <= i < m.sessions.len(),
    ensures
        (MuxView { active_session: m.sessions[i].1.id, ..m }).wf(),
{
    let n = MuxView { active_session: m.sessions[i].1.id, ..m };
    assert(session_ok(m.sessions[i], m.next_id));
    maps::key_at_index(m.sessions, i);
    panes_stay(m);
    reshaping_keeps_order(m, n);
}

/// `window_with` finds the first window that shows a pane.
pub proof fn window_with_is(windows: Seq<(WindowId, WindowView)>, p: PaneId)
    ensures
        match model::window_with(windows, p) {
            Some(j) => 0 <= j < windows.len() && layout::leaves_of(windows[j].1.layout).contains(p),
            None => forall|j: int|
                0 <= j < windows.len() ==> !layout::leaves_of(
                    (#[trigger] windows[j]).1.layout,
                ).contains(p),
        },
    decreases windows.len(),
{
    if windows.len() > 0 {
        let init = windows.drop_last();
        window_with_is(init, p);
        match model::window_with(init, p) {
            Some(j) => {
                assert(init[j] == windows[j]);
            },
            None => {
                assert forall|j: int| 0 <= j < windows.len() - 1 implies !layout::leaves_of(
                    (#[trigger] windows[j]).1.layout,
                ).contains(p) by {
                    assert(init[j] == windows[j]);
                }
            },
        }
    }
}

/// `session_with` finds the first session that owns a pane.
pub proof fn session_with_is(sessions: Seq<(SessionId, SessionView)>, p: PaneId)
    ensures
        match model::session_with(sessions, p) {
            Some(i) => 0 <= i < sessions.len() && model::window_with(
                sessions[i].1.windows,
                p,
            ) is Some,
            None => forall|i: int|
                0 <= i < sessions.len() ==> model::window_with(
                    (#[trigger] sessions[i]).1.windows,
                    p,
                ) is None,
        },
    decreases sessions.len(),
{
    if sessions.len() > 0 {
        let init = sessions.drop_last();
        session_with_is(init, p);
        match model::session_with(init, p) {
            Some(i) => {
                assert(init[i] == sessions[i]);
            },
            None => {
                assert forall|i: int| 0 <= i < sessions.len() - 1 implies model::window_with(
                    (#[trigger] sessions[i]).1.windows,
                    p,
                ) is None by {
                    assert(init[i] == sessions[i]);
                }
            },
        }
    }
}

pub proof fn focusing_a_pane_keeps_order(m: MuxView, p: PaneId)
    requires
        m.wf(),
    ensures
        model::pane_focused(m, p).0.wf(),
{
    session_with_is(m.sessions, p);
    match model::session_with(m.sessions, p) {
        None => {},
        Some(a) => {
            let s = m.sessions[a].1;
            window_with_is(s.windows, p);
            let b = model::window_with(s.windows, p)->0;
            let n = model::pane_focused(m, p).0;
            assert(session_ok(m.sessions[a], m.next_id));
            assert(window_ok(s.windows[b], m.next_id));
            let t = n.sessions[a].1;
            same_keys(t.windows, s.windows, t.active_window);
            maps::key_at_index(s.windows, b);
            assert(session_ok(n.sessions[a], n.next_id)) by {
                assert forall|j: int| 0 <= j < t.windows.len() implies window_ok(
                    #[trigger] t.windows[j],
                    n.next_id,
                ) by {
                    assert(window_ok(s.windows[j], m.next_id));
                }
                assert forall|i: int, j: int| 0 <= i < j < t.windows.len() implies (
                #[trigger] t.windows[i]).0 != (#[trigger] t.windows[j]).0 by {
                    assert(s.windows[i].0 != s.windows[j].0);
                }
            }
            assert forall|i: int| 0 <= i < n.sessions.len() implies session_ok(
                #[trigger] n.sessions[i],
                n.next_id,
            ) by {
                if i != a {
                    assert(n.sessions[i] == m.sessions[i]);
                }
            }
            same_keys(n.sessions, m.sessions, n.active_session);
            maps::key_at_index(m.sessions, a);
            panes_stay(m);
            reshaping_keeps_order(m, n);
        },
    }
}

/// Every pane belongs to some window: focusing an open pane always works, and
/// makes it the active one.
pub proof fn open_panes_can_be_focused(m: MuxView, p: PaneId)
    requires
        m.wf(),
        maps::key_at(m.panes, p) is Some,
    ensures
        model::pane_focused(m, p).1.layout_changed,
        model::window_of(model::pane_focused(m, p).0).active_pane == p,
{
    maps::key_at_is_first(m.panes, p);
    let k = maps::key_at(m.panes, p)->0;
    let (i, j) = choose|i: int, j: int| shows(m, i, j, m.panes[k].0);
    session_with_is(m.sessions, p);
    window_with_is(m.sessions[i].1.windows, p);
    assert(layout::leaves_of(m.sessions[i].1.windows[j].1.layout).contains(p));
    let a = model::session_with(m.sessions, p)->0;
    let s = m.sessions[a].1;
    window_with_is(s.windows, p);
    let b = model::window_with(s.windows, p)->0;
    assert(session_ok(m.sessions[a], m.next_id));
    maps::key_at_index(m.sessions, a);
    maps::key_at_index(s.windows, b);
    let n = model::pane_focused(m, p).0;
    same_keys(n.sessions, m.sessions, n.active_session);
    same_keys(n.sessions[a].1.windows, s.windows, s.windows[b].0);
}

proof fn later_keys_are_free<V>(entries: Seq<(u32, V)>, limit: u32, k: u32)
    requires
        forall|i: int| 0 <= i < entries.len() ==> (#[trigger] entries[i]).0 < limit,
        limit <= k,
    ensures
        maps::key_at(entries, k) is None,
{
    maps::key_at_is_first(entries, k);
}

proof fn one_more_key<V>(entries: Seq<(u32, V)>, k: u32, v: V, x: u32)
    requires
        maps::key_at(entries, k) is None,
    ensures
        maps::put(entries, k, v) == entries.push((k, v)),
        maps::key_at(entries.push((k, v)), x) == if x == k {
            Some(entries.len() as int)
        } else {
            maps::key_at(entries, x)
        },
{
    assert(entries.push((k, v)).drop_last() =~= entries);
    maps::key_at_is_first(entries, x);
}

/// A new session has what it needs, and its pane is shown by nothing else.
proof fn adding_a_session(m: MuxView, name: Seq<char>)
    requires
        m.orderly(),
        m.next_id <= u32::MAX - 3,
    ensures
        model::session_added(m, name).orderly(),
        maps::key_at(model::session_added(m, name).sessions, (m.next_id + 2) as u32) is Some,
{
    let n = model::session_added(m, name);
    let pane = m.next_id;
    let wid = (m.next_id + 1) as u32;
    let sid = (m.next_id + 2) as u32;
    assert forall|i: int| 0 <= i < m.sessions.len() implies (#[trigger] m.sessions[i]).0
        < m.next_id by {
        assert(session_ok(m.sessions[i], m.next_id));
    }
    later_keys_are_free(m.sessions, m.next_id, sid);
    later_keys_are_free(m.panes, m.next_id, pane);
    let fresh = model::fresh_session(sid, name, wid, pane);
    let none = Seq::<(WindowId, WindowView)>::empty();
    let w = model::fresh_window(wid, "main"@, pane);
    one_more_key(none, wid, w, wid);
    one_more_key(m.sessions, sid, fresh, sid);
    one_more_key(m.panes, pane, model::fresh_pane(), pane);
    let last = m.sessions.len() as int;
    assert(fresh.windows =~= seq![(wid, w)]);
    assert(layout::leaves_of(w.layout) =~= seq![pane]);
    assert(seq![pane][0] == pane);
    assert(n.sessions_ok()) by {
        assert forall|i: int| 0 <= i < n.sessions.len() implies session_ok(
            #[trigger] n.sessions[i],
            n.next_id,
        ) by {
            if i < last {
                assert(session_ok(m.sessions[i], m.next_id));
                assert(n.sessions[i] == m.sessions[i]);
                older_sessions_stay_ok(m.sessions[i], m.next_id, n.next_id);
            } else {
                assert(window_ok(fresh.windows[0], n.next_id));
            }
        }
    }
    assert(n.panes_ok()) by {
        assert forall|k: int| 0 <= k < n.panes.len() implies (#[trigger] n.panes[k]).0 < n.next_id
            && n.panes[k].1.editor.wf() by {
            if k < m.panes.len() {
                assert(n.panes[k] == m.panes[k]);
            }
        }
    }
    assert forall|i: int, j: int, p: PaneId| #[trigger] shows(n, i, j, p) implies (if i < last {
        shows(m, i, j, p)
    } else {
        i == last && j == 0 && p == pane
    }) by {
        if i < last {
            assert(n.sessions[i] == m.sessions[i]);
        }
    }
    assert(shows(n, last, 0, pane));
    assert(n.shown_ok()) by {
        assert forall|i: int, j: int, p: PaneId| #[trigger] shows(n, i, j, p) implies maps::key_at(
            n.panes,
            p,
        ) is Some by {
            one_more_key(m.panes, pane, model::fresh_pane(), p);
            if i < last {
                assert(shows(m, i, j, p));
            }
        }
        assert forall|k: int| 0 <= k < n.panes.len() implies is_shown(
        n,
        (#[trigger] n.panes[k]).0,
    ) by {
            if k < m.panes.len() {
                assert(n.panes[k] == m.panes[k]);
                let (i, j) = choose|i: int, j: int| shows(m, i, j, m.panes[k].0);
                assert(n.sessions[i] == m.sessions[i]);
                assert(shows(n, i, j, n.panes[k].0));
            } else {
                assert(shows(n, last, 0, n.panes[k].0));
            }
        }
        assert forall|i: int, j: int, k: int, l: int, p: PaneId| #[trigger]
            shows(n, i, j, p) && #[trigger] shows(n, k, l, p) implies i == k && j == l by {
            if i < last && k < last {
                assert(shows(m, i, j, p) && shows(m, k, l, p));
            } else if i < last {
                assert(shows(m, i, j, p));
                maps::key_at_is_first(m.panes, pane);
            } else if k < last {
                assert(shows(m, k, l, p));
                maps::key_at_is_first(m.panes, pane);
            }
        }
    }
}

proof fn older_sessions_stay_ok(s: (SessionId, SessionView), before: u32, after: u32)
    requires
        session_ok(s, before),
        before <= after,
    ensures
        session_ok(s, after),
{
    assert forall|j: int| 0 <= j < s.1.windows.len() implies window_ok(
        #[trigger] s.1.windows[j],
        after,
    ) by {
        assert(window_ok(s.1.windows[j], before));
    }
}

/// A multiplexer starts with one session, one window and one pane.
pub proof fn a_new_mux_is_in_order()
    ensures
        model::started().wf(),
        model::started().sessions.len() == 1,
        model::started().panes.len() == 1,
{
    let bare = MuxView {
        sessions: Seq::empty(),
        active_session: 0,
        panes: Seq::empty(),
        next_id: 0,
    };
    assert(bare.orderly());
    adding_a_session(bare, "main"@);
    let n = model::started();
    let m = model::session_added(bare, "main"@);
    assert(n.orderly()) by {
        same_but_active(m, n);
    }
}

proof fn same_but_active(m: MuxView, n: MuxView)
    requires
        m.orderly(),
        n.sessions == m.sessions,
        n.panes == m.panes,
        n.next_id == m.next_id,
    ensures
        n.orderly(),
{
    assert forall|i: int, j: int, p: PaneId| #[trigger] shows(n, i, j, p) == shows(m, i, j, p) by {}
    assert forall|k: int| 0 <= k < n.panes.len() implies is_shown(
        n,
        (#[trigger] n.panes[k]).0,
    ) by {
        let (i, j) = choose|i: int, j: int| shows(m, i, j, m.panes[k].0);
        assert(shows(n, i, j, n.panes[k].0));
    }
    assert forall|i: int, j: int, p: PaneId| #[trigger] shows(n, i, j, p) implies maps::key_at(
        n.panes,
        p,
    ) is Some by {
        assert(shows(m, i, j, p));
    }
    assert forall|i: int, j: int, k: int, l: int, p: PaneId| #[trigger]
        shows(n, i, j, p) && #[trigger] shows(n, k, l, p) implies i == k && j == l by {
        assert(shows(m, i, j, p) && shows(m, k, l, p));
    }
}

pub proof fn adding_a_session_keeps_order(m: MuxView, name: Option<Seq<char>>)
    requires
        m.wf(),
        m.next_id <= u32::MAX - 3,
    ensures
        model::session_opened(m, name).wf(),
{
    let given = match name {
        Some(n) => n,
        None => "session"@ + crate::text::numeral(m.sessions.len()),
    };
    adding_a_session(m, given);
    same_but_active(model::session_added(m, given), model::session_opened(m, name));
}

proof fn behind_first_is(s: Seq<PaneId>, t: PaneId, x: PaneId)
    requires
        s.no_duplicates(),
        s.contains(t),
        !s.contains(x),
    ensures
        layout::behind_first(s, t, x).no_duplicates(),
        forall|p: PaneId| #[trigger]
            layout::behind_first(s, t, x).contains(p) <==> s.contains(p) || p == x,
    decreases s.len(),
{
    let rest = s.drop_first();
    let out = layout::behind_first(s, t, x);
    assert forall|p: PaneId| s.contains(p) <==> p == s[0] || #[trigger] rest.contains(p) by {
        if s.contains(p) {
            let i = choose|i: int| 0 <= i < s.len() && s[i] == p;
            if i > 0 {
                assert(rest[i - 1] == p);
            }
        }
        if rest.contains(p) {
            let i = choose|i: int| 0 <= i < rest.len() && rest[i] == p;
            assert(s[i + 1] == p);
        }
    }
    assert(rest.no_duplicates()) by {
        assert forall|i: int, j: int|
            0 <= i < rest.len() && 0 <= j < rest.len() && i != j implies rest[i] != rest[j] by {
            assert(s[i + 1] != s[j + 1]);
        }
    }
    if s[0] == t {
        assert(!rest.contains(t)) by {
            if rest.contains(t) {
                let i = choose|i: int| 0 <= i < rest.len() && rest[i] == t;
                assert(s[i + 1] == s[0]);
            }
        }
        assert(out =~= seq![t, x] + rest);
        assert forall|p: PaneId| #[trigger] out.contains(p) <==> s.contains(p) || p == x by {
            assert(rest.contains(p) == rest.contains(p));
            if out.contains(p) {
                let i = choose|i: int| 0 <= i < out.len() && out[i] == p;
                if i >= 2 {
                    assert(rest[i - 2] == p);
                }
            }
            if p == t {
                assert(out[0] == p);
            }
            if p == x {
                assert(out[1] == p);
            }
            if rest.contains(p) {
                let i = choose|i: int| 0 <= i < rest.len() && rest[i] == p;
                assert(out[i + 2] == p);
            }
        }
        assert forall|i: int, j: int|
            0 <= i < out.len() && 0 <= j < out.len() && i != j implies out[i] != out[j] by {
            if i >= 2 {
                assert(rest.contains(rest[i - 2]));
                assert(s.contains(rest[i - 2]));
            }
            if j >= 2 {
                assert(rest.contains(rest[j - 2]));
                assert(s.contains(rest[j - 2]));
            }
        }
    } else {
        assert(rest.contains(t));
        assert(!rest.contains(x));
        behind_first_is(rest, t, x);
        let tail = layout::behind_first(rest, t, x);
        assert(out =~= seq![s[0]] + tail);
        assert(!rest.contains(s[0])) by {
            if rest.contains(s[0]) {
                let i = choose|i: int| 0 <= i < rest.len() && rest[i] == s[0];
                assert(s[i + 1] == s[0]);
            }
        }
        assert(!tail.contains(s[0]));
        assert forall|p: PaneId| #[trigger] out.contains(p) <==> s.contains(p) || p == x by {
            assert(tail.contains(p) <==> rest.contains(p) || p == x);
            if out.contains(p) {
                let i = choose|i: int| 0 <= i < out.len() && out[i] == p;
                if i >= 1 {
                    assert(tail[i - 1] == p);
                }
            }
            if p == s[0] {
                assert(out[0] == p);
            }
            if tail.contains(p) {
                let i = choose|i: int| 0 <= i < tail.len() && tail[i] == p;
                assert(out[i + 1] == p);
            }
        }
        assert forall|i: int, j: int|
            0 <= i < out.len() && 0 <= j < out.len() && i != j implies out[i] != out[j] by {
            if i >= 1 {
                assert(tail.contains(tail[i - 1]));
            }
            if j >= 1 {
                assert(tail.contains(tail[j - 1]));
            }
        }
    }
}

/// Splitting adds one pane, to the active window.
pub proof fn splitting_keeps_order(m: MuxView, dir: Dir)
    requires
        m.wf(),
        m.next_id < u32::MAX,
    ensures
        model::split_done(m, dir).wf(),
{
    the_active_exist(m);
    let w = model::window_of(m);
    let pane = m.next_id;
    let mid = model::pane_added(m);
    let split = WindowView {
        layout: layout::split_view(w.layout, w.active_pane, dir, pane),
        active_pane: pane,
        zoomed: None,
        ..w
    };
    let n = model::split_done(m, dir);
    let a = maps::key_at(m.sessions, m.active_session)->0;
    let s = model::session_of(m);
    let b = maps::key_at(s.windows, s.active_window)->0;
    let t = n.sessions[a].1;
    let order = layout::leaves_of(w.layout);
    layout::splitting_adds_one_pane(w.layout, w.active_pane, dir, pane);
    later_keys_are_free(m.panes, m.next_id, pane);
    one_more_key(m.panes, pane, model::fresh_pane(), pane);
    assert(!order.contains(pane)) by {
        if order.contains(pane) {
            assert(shows(m, a, b, pane));
        }
    }
    behind_first_is(order, w.active_pane, pane);
    assert(t.windows == s.windows.update(b, (s.active_window, split)));
    same_keys(t.windows, s.windows, s.active_window);
    assert(session_ok(n.sessions[a], n.next_id)) by {
        assert forall|j: int| 0 <= j < t.windows.len() implies window_ok(
            #[trigger] t.windows[j],
            n.next_id,
        ) by {
            assert(window_ok(s.windows[j], m.next_id));
        }
        assert forall|i: int, j: int| 0 <= i < j < t.windows.len() implies (
        #[trigger] t.windows[i]).0 != (#[trigger] t.windows[j]).0 by {
            assert(s.windows[i].0 != s.windows[j].0);
        }
    }
    assert(n.sessions_ok()) by {
        assert forall|i: int| 0 <= i < n.sessions.len() implies session_ok(
            #[trigger] n.sessions[i],
            n.next_id,
        ) by {
            if i != a {
                assert(n.sessions[i] == m.sessions[i]);
                older_sessions_stay_ok(m.sessions[i], m.next_id, n.next_id);
            }
        }
        assert forall|i: int, j: int| 0 <= i < j < n.sessions.len() implies (
        #[trigger] n.sessions[i]).0 != (#[trigger] n.sessions[j]).0 by {
            assert(m.sessions[i].0 != m.sessions[j].0);
        }
    }
    same_keys(n.sessions, m.sessions, m.active_session);
    assert(n.panes_ok()) by {
        assert forall|k: int| 0 <= k < n.panes.len() implies (#[trigger] n.panes[k]).0 < n.next_id
            && n.panes[k].1.editor.wf() by {
            if k < m.panes.len() {
                assert(n.panes[k] == m.panes[k]);
            }
        }
    }
    assert forall|i: int, j: int, p: PaneId| #[trigger] shows(n, i, j, p) <==> shows(m, i, j, p)
        || (i == a && j == b && p == pane) by {
        if i != a && 0 <= i < m.sessions.len() {
            assert(n.sessions[i] == m.sessions[i]);
        }
        if i == a && j != b && 0 <= j < s.windows.len() {
            assert(t.windows[j] == s.windows[j]);
        }
        assert(layout::behind_first(order, w.active_pane, pane).contains(p) <==> order.contains(p)
            || p == pane);
    }
    assert(n.shown_ok()) by {
        assert forall|i: int, j: int, p: PaneId| #[trigger] shows(n, i, j, p) implies maps::key_at(
            n.panes,
            p,
        ) is Some by {
            one_more_key(m.panes, pane, model::fresh_pane(), p);
        }
        assert forall|k: int| 0 <= k < n.panes.len() implies is_shown(
        n,
        (#[trigger] n.panes[k]).0,
    ) by {
            if k < m.panes.len() {
                assert(n.panes[k] == m.panes[k]);
                let (i, j) = choose|i: int, j: int| shows(m, i, j, m.panes[k].0);
                assert(shows(n, i, j, n.panes[k].0));
            } else {
                assert(shows(n, a, b, n.panes[k].0));
            }
        }
        assert forall|i: int, j: int, k: int, l: int, p: PaneId| #[trigger]
            shows(n, i, j, p) && #[trigger] shows(n, k, l, p) implies i == k && j == l by {
            assert(p == pane ==> !shows(m, i, j, p) && !shows(m, k, l, p));
        }
    }
}

pub proof fn adding_a_window_keeps_order(m: MuxView)
    requires
        m.wf(),
        m.next_id <= u32::MAX - 2,
    ensures
        model::window_added(m).wf(),
{
    the_active_exist(m);
    let n = model::window_added(m);
    let pane = m.next_id;
    let wid = (m.next_id + 1) as u32;
    let a = maps::key_at(m.sessions, m.active_session)->0;
    let s = model::session_of(m);
    let b = s.windows.len() as int;
    let w = model::fresh_window(wid, "win"@ + crate::text::numeral(pane as nat), pane);
    let t = n.sessions[a].1;
    assert forall|j: int| 0 <= j < s.windows.len() implies (#[trigger] s.windows[j]).0
        < m.next_id by {
        assert(window_ok(s.windows[j], m.next_id));
    }
    later_keys_are_free(s.windows, m.next_id, wid);
    later_keys_are_free(m.panes, m.next_id, pane);
    one_more_key(s.windows, wid, w, wid);
    one_more_key(m.panes, pane, model::fresh_pane(), pane);
    assert(t.windows == s.windows.push((wid, w)));
    assert(layout::leaves_of(w.layout) =~= seq![pane]);
    assert(seq![pane][0] == pane);
    assert(session_ok(n.sessions[a], n.next_id)) by {
        assert forall|j: int| 0 <= j < t.windows.len() implies window_ok(
            #[trigger] t.windows[j],
            n.next_id,
        ) by {
            if j < b {
                assert(window_ok(s.windows[j], m.next_id));
                assert(t.windows[j] == s.windows[j]);
            }
        }
    }
    assert(n.sessions_ok()) by {
        assert forall|i: int| 0 <= i < n.sessions.len() implies session_ok(
            #[trigger] n.sessions[i],
            n.next_id,
        ) by {
            if i != a {
                assert(n.sessions[i] == m.sessions[i]);
                older_sessions_stay_ok(m.sessions[i], m.next_id, n.next_id);
            }
        }
        assert forall|i: int, j: int| 0 <= i < j < n.sessions.len() implies (
        #[trigger] n.sessions[i]).0 != (#[trigger] n.sessions[j]).0 by {
            assert(m.sessions[i].0 != m.sessions[j].0);
        }
    }
    same_keys(n.sessions, m.sessions, m.active_session);
    assert(n.panes_ok()) by {
        assert forall|k: int| 0 <= k < n.panes.len() implies (#[trigger] n.panes[k]).0 < n.next_id
            && n.panes[k].1.editor.wf() by {
            if k < m.panes.len() {
                assert(n.panes[k] == m.panes[k]);
            }
        }
    }
    assert forall|i: int, j: int, p: PaneId| #[trigger] shows(n, i, j, p) <==> shows(m, i, j, p)
        || (i == a && j == b && p == pane) by {
        if i != a && 0 <= i < m.sessions.len() {
            assert(n.sessions[i] == m.sessions[i]);
        }
        if i == a && 0 <= j < b {
            assert(t.windows[j] == s.windows[j]);
        }
    }
    assert(n.shown_ok()) by {
        assert forall|i: int, j: int, p: PaneId| #[trigger] shows(n, i, j, p) implies maps::key_at(
            n.panes,
            p,
        ) is Some by {
            one_more_key(m.panes, pane, model::fresh_pane(), p);
        }
        assert forall|k: int| 0 <= k < n.panes.len() implies is_shown(
        n,
        (#[trigger] n.panes[k]).0,
    ) by {
            if k < m.panes.len() {
                assert(n.panes[k] == m.panes[k]);
                let (i, j) = choose|i: int, j: int| shows(m, i, j, m.panes[k].0);
                assert(shows(n, i, j, n.panes[k].0));
            } else {
                assert(shows(n, a, b, n.panes[k].0));
            }
        }
        assert forall|i: int, j: int, k: int, l: int, p: PaneId| #[trigger]
            shows(n, i, j, p) && #[trigger] shows(n, k, l, p) implies i == k && j == l by {
            assert(p == pane ==> !shows(m, i, j, p) && !shows(m, k, l, p));
        }
    }
}

proof fn one_key_less<V>(entries: Seq<(u32, V)>, k: u32, x: u32)
    requires
        maps::distinct_keys(entries),
    ensures
        maps::distinct_keys(maps::taken(entries, k)),
        maps::key_at(maps::taken(entries, k), x) is Some <==> maps::key_at(entries, x) is Some && x
            != k,
        forall|i: int|
            0 <= i < maps::taken(entries, k).len() ==> (#[trigger] maps::taken(entries, k)[i]).0
                != k && entries.contains(maps::taken(entries, k)[i]),
{
    maps::key_at_is_first(entries, k);
    let out = maps::taken(entries, k);
    match maps::key_at(entries, k) {
        None => {
            assert forall|i: int| 0 <= i < out.len() implies (#[trigger] out[i]).0 != k
                && entries.contains(out[i]) by {
                assert(entries[i] == out[i]);
            }
        },
        Some(c) => {
            assert forall|i: int| 0 <= i < out.len() implies (#[trigger] out[i]).0 != k
                && entries.contains(out[i]) by {
                let o = if i < c {
                    i
                } else {
                    i + 1
                };
                assert(out[i] == entries[o]);
                assert(entries[o].0 != entries[c].0);
            }
            assert forall|i: int, j: int| 0 <= i < j < out.len() implies (#[trigger] out[i]).0 != (
            #[trigger] out[j]).0 by {
                let o = if i < c {
                    i
                } else {
                    i + 1
                };
                let q = if j < c {
                    j
                } else {
                    j + 1
                };
                assert(out[i] == entries[o] && out[j] == entries[q]);
            }
        },
    }
    maps::key_at_is_first(out, x);
    maps::key_at_is_first(entries, x);
    if maps::key_at(entries, x) is Some && x != k {
        let o = maps::key_at(entries, x)->0;
        match maps::key_at(entries, k) {
            Some(c) => {
                let i = if o < c {
                    o
                } else {
                    o - 1
                };
                assert(out[i] == entries[o]);
            },
            None => {},
        }
    }
    if maps::key_at(out, x) is Some {
        let i = maps::key_at(out, x)->0;
        assert(entries.contains(out[i]));
        let o = choose|o: int| 0 <= o < entries.len() && entries[o] == out[i];
        assert(entries[o].0 == x);
    }
}

/// Where exactly one pane is no longer shown and no longer there, the panes are
/// again those that are shown.
proof fn one_pane_less(m: MuxView, n: MuxView, target: PaneId)
    requires
        m.orderly(),
        n.next_id == m.next_id,
        n.panes == maps::taken(m.panes, target),
        forall|i: int, j: int, p: PaneId| #[trigger]
            shows(n, i, j, p) ==> p != target && maps::key_at(m.panes, p) is Some,
        forall|i: int, j: int, p: PaneId| #[trigger]
            shows(m, i, j, p) && p != target ==> is_shown(n, p),
        forall|i: int, j: int, k: int, l: int, p: PaneId| #[trigger]
            shows(n, i, j, p) && #[trigger] shows(n, k, l, p) ==> i == k && j == l,
    ensures
        n.panes_ok(),
        n.shown_ok(),
{
    one_key_less(m.panes, target, target);
    assert(n.panes_ok()) by {
        assert forall|k: int| 0 <= k < n.panes.len() implies (#[trigger] n.panes[k]).0 < n.next_id
            && n.panes[k].1.editor.wf() by {
            assert(m.panes.contains(n.panes[k]));
            let o = choose|o: int| 0 <= o < m.panes.len() && m.panes[o] == n.panes[k];
            assert(m.panes[o].0 < m.next_id);
        }
    }
    assert forall|i: int, j: int, p: PaneId| #[trigger] shows(n, i, j, p) implies maps::key_at(
        n.panes,
        p,
    ) is Some by {
        one_key_less(m.panes, target, p);
    }
    assert forall|k: int| 0 <= k < n.panes.len() implies is_shown(
        n,
        (#[trigger] n.panes[k]).0,
    ) by {
        assert(m.panes.contains(n.panes[k]) && n.panes[k].0 != target);
        let o = choose|o: int| 0 <= o < m.panes.len() && m.panes[o] == n.panes[k];
        let (i, j) = choose|i: int, j: int| shows(m, i, j, m.panes[o].0);
        assert(shows(m, i, j, n.panes[k].0));
    }
}

proof fn others_are(s: Seq<PaneId>, target: PaneId)
    requires
        s.no_duplicates(),
    ensures
        s.filter(layout::other_than(target)).no_duplicates(),
        forall|p: PaneId| #[trigger]
            s.filter(layout::other_than(target)).contains(p) <==> s.contains(p) && p != target,
    decreases s.len(),
{
    reveal(Seq::filter);
    let q = layout::other_than(target);
    if s.len() > 0 {
        let init = s.drop_last();
        let last = s.last();
        assert(init.no_duplicates()) by {
            assert forall|i: int, j: int|
                0 <= i < init.len() && 0 <= j < init.len() && i != j implies init[i]
                != init[j] by {
                assert(s[i] != s[j]);
            }
        }
        others_are(init, target);
        let out = s.filter(q);
        let kept = init.filter(q);
        assert forall|p: PaneId| s.contains(p) <==> p == last || #[trigger] init.contains(p) by {
            if s.contains(p) {
                let i = choose|i: int| 0 <= i < s.len() && s[i] == p;
                if i < s.len() - 1 {
                    assert(init[i] == p);
                }
            }
            if init.contains(p) {
                let i = choose|i: int| 0 <= i < init.len() && init[i] == p;
                assert(s[i] == p);
            }
            if p == last {
                assert(s[s.len() - 1] == p);
            }
        }
        assert(!init.contains(last)) by {
            if init.contains(last) {
                let i = choose|i: int| 0 <= i < init.len() && init[i] == last;
                assert(s[i] == s[s.len() - 1]);
            }
        }
        if q(last) {
            assert(out =~= kept.push(last));
            assert forall|p: PaneId| #[trigger] out.contains(p) <==> s.contains(p) && p
                != target by {
                assert(kept.contains(p) <==> init.contains(p) && p != target);
                if out.contains(p) {
                    let i = choose|i: int| 0 <= i < out.len() && out[i] == p;
                    if i < kept.len() {
                        assert(kept[i] == p);
                    }
                }
                if kept.contains(p) {
                    let i = choose|i: int| 0 <= i < kept.len() && kept[i] == p;
                    assert(out[i] == p);
                }
                if p == last {
                    assert(out[kept.len() as int] == p);
                }
            }
            assert forall|i: int, j: int|
                0 <= i < out.len() && 0 <= j < out.len() && i != j implies out[i] != out[j] by {
                if i < kept.len() {
                    assert(kept.contains(kept[i]));
                }
                if j < kept.len() {
                    assert(kept.contains(kept[j]));
                }
            }
        } else {
            assert(out =~= kept);
            assert forall|p: PaneId| #[trigger] out.contains(p) <==> s.contains(p) && p
                != target by {
                assert(kept.contains(p) <==> init.contains(p) && p != target);
            }
        }
    }
}

proof fn no_panes_left(order: Seq<PaneId>, target: PaneId, p: PaneId)
    requires
        order.no_duplicates(),
        order.filter(layout::other_than(target)).len() == 0,
        order.contains(p),
    ensures
        p == target,
{
    others_are(order, target);
    if p != target {
        assert(order.filter(layout::other_than(target)).contains(p));
    }
}

proof fn killing_in_a_window(m: MuxView, kept: LayoutView, replies: ReplySeq)
    requires
        m.wf(),
        layout::removed(
            model::window_of(m).layout,
            model::window_of(m).active_pane,
            replies,
        ) == Ok::<Option<LayoutView>, QueryView>(Some(kept)),
    ensures
        model::killed(m, replies)->Ok_0.0.wf(),
{
    the_active_exist(m);
    let w = model::window_of(m);
    let target = w.active_pane;
    let n = model::killed(m, replies)->Ok_0.0;
    let a = maps::key_at(m.sessions, m.active_session)->0;
    let s = model::session_of(m);
    let b = maps::key_at(s.windows, s.active_window)->0;
    let t = n.sessions[a].1;
    let order = layout::leaves_of(w.layout);
    let rest = layout::leaves_of(kept);
    layout::removing_keeps_the_others(w.layout, target, replies);
    others_are(order, target);
    let fresh = WindowView { layout: kept, active_pane: rest.last(), zoomed: None, ..w };
    assert(rest.contains(rest.last())) by {
        assert(rest[rest.len() - 1] == rest.last());
    }
    assert(t.windows == s.windows.update(b, (s.active_window, fresh)));
    same_keys(t.windows, s.windows, s.active_window);
    assert(session_ok(n.sessions[a], n.next_id)) by {
        assert forall|j: int| 0 <= j < t.windows.len() implies window_ok(
            #[trigger] t.windows[j],
            n.next_id,
        ) by {
            assert(window_ok(s.windows[j], m.next_id));
        }
        assert forall|i: int, j: int| 0 <= i < j < t.windows.len() implies (
        #[trigger] t.windows[i]).0 != (#[trigger] t.windows[j]).0 by {
            assert(s.windows[i].0 != s.windows[j].0);
        }
    }
    assert(n.sessions_ok()) by {
        assert forall|i: int| 0 <= i < n.sessions.len() implies session_ok(
            #[trigger] n.sessions[i],
            n.next_id,
        ) by {
            if i != a {
                assert(n.sessions[i] == m.sessions[i]);
            }
        }
        assert forall|i: int, j: int| 0 <= i < j < n.sessions.len() implies (
        #[trigger] n.sessions[i]).0 != (#[trigger] n.sessions[j]).0 by {
            assert(m.sessions[i].0 != m.sessions[j].0);
        }
    }
    same_keys(n.sessions, m.sessions, m.active_session);
    assert(shows(m, a, b, target));
    assert forall|i: int, j: int, p: PaneId| #[trigger] shows(n, i, j, p) <==> shows(m, i, j, p) && p
        != target by {
        if i != a && 0 <= i < m.sessions.len() {
            assert(n.sessions[i] == m.sessions[i]);
        }
        if i == a && j != b && 0 <= j < s.windows.len() {
            assert(t.windows[j] == s.windows[j]);
        }
        assert(rest.contains(p) <==> order.contains(p) && p != target);
        if shows(m, i, j, target) {
            assert(i == a && j == b);
        }
    }
    assert forall|i: int, j: int, p: PaneId| #[trigger]
        shows(m, i, j, p) && p != target implies is_shown(n, p) by {
        assert(shows(n, i, j, p));
    }
    one_pane_less(m, n, target);
}

#[verifier::rlimit(60)]
proof fn killing_a_window(m: MuxView, replies: ReplySeq)
    requires
        m.wf(),
        layout::removed(
            model::window_of(m).layout,
            model::window_of(m).active_pane,
            replies,
        ) == Ok::<Option<LayoutView>, QueryView>(None),
        maps::taken(model::session_of(m).windows, model::session_of(m).active_window).len() > 0,
    ensures
        model::killed(m, replies)->Ok_0.0.wf(),
{
    the_active_exist(m);
    let w = model::window_of(m);
    let target = w.active_pane;
    let n = model::killed(m, replies)->Ok_0.0;
    let a = maps::key_at(m.sessions, m.active_session)->0;
    let s = model::session_of(m);
    let b = maps::key_at(s.windows, s.active_window)->0;
    let t = n.sessions[a].1;
    let left = maps::taken(s.windows, s.active_window);
    let order = layout::leaves_of(w.layout);
    layout::removing_keeps_the_others(w.layout, target, replies);
    let rest = MuxView { panes: maps::taken(m.panes, target), ..m };
    assert(model::session_of(rest) == s);
    assert(t.windows == left);
    one_key_less(s.windows, s.active_window, left.last().0);
    assert(maps::key_at(left, left.last().0) is Some) by {
        maps::key_at_is_first(left, left.last().0);
        assert(left[left.len() - 1].0 == left.last().0);
    }
    assert(session_ok(n.sessions[a], n.next_id)) by {
        assert forall|j: int| 0 <= j < t.windows.len() implies window_ok(
            #[trigger] t.windows[j],
            n.next_id,
        ) by {
            assert(s.windows.contains(left[j]));
            let o = choose|o: int| 0 <= o < s.windows.len() && s.windows[o] == left[j];
            assert(window_ok(s.windows[o], m.next_id));
        }
    }
    assert(n.sessions_ok()) by {
        assert forall|i: int| 0 <= i < n.sessions.len() implies session_ok(
            #[trigger] n.sessions[i],
            n.next_id,
        ) by {
            if i != a {
                assert(n.sessions[i] == m.sessions[i]);
            }
        }
        assert forall|i: int, j: int| 0 <= i < j < n.sessions.len() implies (
        #[trigger] n.sessions[i]).0 != (#[trigger] n.sessions[j]).0 by {
            assert(m.sessions[i].0 != m.sessions[j].0);
        }
    }
    same_keys(n.sessions, m.sessions, m.active_session);
    assert(shows(m, a, b, target));
    // Where the windows behind the closed one moved up.
    assert forall|i: int, j: int, p: PaneId| #[trigger] shows(n, i, j, p) implies p != target
        && shows(m, i, if i == a && j >= b { j + 1 } else { j }, p) by {
        let o = if i == a && j >= b {
            j + 1
        } else {
            j
        };
        if i != a {
            assert(n.sessions[i] == m.sessions[i]);
        } else {
            assert(left[j] == s.windows[o]);
        }
        assert(shows(m, i, o, p));
        if p == target {
            assert(i == a && o == b);
        }
    }
    assert forall|i: int, j: int, p: PaneId| #[trigger]
        shows(m, i, j, p) && p != target implies is_shown(n, p) by {
        if i != a {
            assert(n.sessions[i] == m.sessions[i]);
            assert(shows(n, i, j, p));
        } else if j == b {
            no_panes_left(order, target, p);
        } else {
            let l = if j < b {
                j
            } else {
                j - 1
            };
            assert(left[l] == s.windows[j]);
            assert(shows(n, i, l, p));
        }
    }
    one_pane_less(m, n, target);
}

proof fn killing_a_session(m: MuxView, replies: ReplySeq)
    requires
        m.wf(),
        m.next_id <= u32::MAX - 3,
        layout::removed(
            model::window_of(m).layout,
            model::window_of(m).active_pane,
            replies,
        ) == Ok::<Option<LayoutView>, QueryView>(None),
        maps::taken(model::session_of(m).windows, model::session_of(m).active_window).len() == 0,
    ensures
        model::killed(m, replies)->Ok_0.0.wf(),
{
    the_active_exist(m);
    let w = model::window_of(m);
    let target = w.active_pane;
    let a = maps::key_at(m.sessions, m.active_session)->0;
    let s = model::session_of(m);
    let b = maps::key_at(s.windows, s.active_window)->0;
    let order = layout::leaves_of(w.layout);
    layout::removing_keeps_the_others(w.layout, target, replies);
    assert(s.windows.len() == 1);
    let rest = MuxView { panes: maps::taken(m.panes, target), ..m };
    let left = maps::taken(m.sessions, m.active_session);
    let bare = MuxView { sessions: left, ..rest };
    one_key_less(m.sessions, m.active_session, m.active_session);
    assert(bare.sessions_ok()) by {
        assert forall|i: int| 0 <= i < left.len() implies session_ok(
            #[trigger] bare.sessions[i],
            bare.next_id,
        ) by {
            assert(m.sessions.contains(left[i]));
            let o = choose|o: int| 0 <= o < m.sessions.len() && m.sessions[o] == left[i];
            assert(session_ok(m.sessions[o], m.next_id));
        }
    }
    assert(shows(m, a, b, target));
    assert forall|i: int, j: int, p: PaneId| #[trigger] shows(bare, i, j, p) implies p != target
        && shows(m, if i >= a { i + 1 } else { i }, j, p) by {
        let o = if i >= a {
            i + 1
        } else {
            i
        };
        assert(left[i] == m.sessions[o]);
        assert(shows(m, o, j, p));
        if p == target {
            assert(o == a);
        }
    }
    assert forall|i: int, j: int, p: PaneId| #[trigger]
        shows(m, i, j, p) && p != target implies is_shown(bare, p) by {
        if i == a {
            assert(j == b);
            no_panes_left(order, target, p);
        } else {
            let k = if i < a {
                i
            } else {
                i - 1
            };
            assert(left[k] == m.sessions[i]);
            assert(shows(bare, k, j, p));
        }
    }
    one_pane_less(m, bare, target);
    let n = model::killed(m, replies)->Ok_0.0;
    if left.len() > 0 {
        maps::key_at_is_first(left, left.last().0);
        assert(left[left.len() - 1].0 == left.last().0);
        same_but_active(bare, n);
    } else {
        adding_a_session(bare, "main"@);
        same_but_active(model::session_added(bare, "main"@), n);
    }
}

/// Killing a pane leaves a multiplexer in order: with at least one session,
/// window and pane, whatever closed with the pane.
pub proof fn killing_keeps_order(m: MuxView, replies: ReplySeq)
    requires
        m.wf(),
        m.next_id <= u32::MAX - 3,
    ensures
        model::killed(m, replies) matches Ok((n, _)) ==> n.wf(),
{
    let w = model::window_of(m);
    let s = model::session_of(m);
    match layout::removed(w.layout, w.active_pane, replies) {
        Ok(Some(kept)) => {
            killing_in_a_window(m, kept, replies);
        },
        Ok(None) => {
            if maps::taken(s.windows, s.active_window).len() > 0 {
                killing_a_window(m, replies);
            } else {
                killing_a_session(m, replies);
            }
        },
        Err(_) => {},
    }
}

/// Is a pane there?
pub open spec fn has_pane(m: MuxView, p: PaneId) -> bool {
    maps::key_at(m.panes, p) is Some
}

/// Where the only pane is the active one, it is all that is left, and only then.
proof fn the_last_pane_is_alone(m: MuxView, replies: ReplySeq)
    requires
        m.wf(),
        layout::removed(model::window_of(m).layout, model::window_of(m).active_pane, replies) is Ok,
    ensures
        ({
            let w = model::window_of(m);
            let s = model::session_of(m);
            let alone = layout::removed(w.layout, w.active_pane, replies)->Ok_0 is None
                && maps::taken(s.windows, s.active_window).len() == 0 && maps::taken(
                m.sessions,
                m.active_session,
            ).len() == 0;
            alone <==> m.panes.len() == 1
        }),
{
    the_active_exist(m);
    let w = model::window_of(m);
    let s = model::session_of(m);
    let a = w.active_pane;
    let i = maps::key_at(m.sessions, m.active_session)->0;
    let j = maps::key_at(s.windows, s.active_window)->0;
    assert(shows(m, i, j, a));
    maps::key_at_is_first(m.panes, a);
    let at = maps::key_at(m.panes, a)->0;
    layout::removing_keeps_the_others(w.layout, a, replies);
    others_are(layout::leaves_of(w.layout), a);
    let rest = layout::removed(w.layout, a, replies)->Ok_0;
    let alone = rest is None && maps::taken(s.windows, s.active_window).len() == 0 && maps::taken(
        m.sessions,
        m.active_session,
    ).len() == 0;
    if alone {
        assert forall|k: int| 0 <= k < m.panes.len() implies (#[trigger] m.panes[k]).0 == a by {
            let p = m.panes[k].0;
            assert(is_shown(m, p));
            let (x, y) = choose|x: int, y: int| shows(m, x, y, p);
            assert(shows(m, x, y, p));
            assert(m.sessions.len() == 1 && s.windows.len() == 1);
            assert(layout::leaves_of(w.layout).contains(p));
            if p != a {
                no_panes_left(layout::leaves_of(w.layout), a, p);
            }
        }
        if m.panes.len() > 1 {
            assert(m.panes[0].0 != m.panes[1].0);
        }
    }
    if m.panes.len() == 1 {
        assert forall|x: int, y: int, p: PaneId| #[trigger] shows(m, x, y, p) implies p == a && x
            == i && y == j by {
            maps::key_at_is_first(m.panes, p);
            assert(maps::key_at(m.panes, p) is Some);
        }
        if rest is Some {
            let order = layout::leaves_of(rest->Some_0);
            let p = order[0];
            assert(order.contains(p));
            assert(shows(m, i, j, p));
        }
        if s.windows.len() > 1 {
            let y: int = if j == 0 {
                1
            } else {
                0
            };
            assert(session_ok(m.sessions[i], m.next_id));
            assert(window_ok(s.windows[y], m.next_id));
            assert(shows(m, i, y, s.windows[y].1.active_pane));
        }
        if m.sessions.len() > 1 {
            let x: int = if i == 0 {
                1
            } else {
                0
            };
            let t = m.sessions[x].1;
            assert(session_ok(m.sessions[x], m.next_id));
            maps::key_at_is_first(t.windows, t.active_window);
            let y = maps::key_at(t.windows, t.active_window)->0;
            assert(window_ok(t.windows[y], m.next_id));
            assert(shows(m, x, y, t.windows[y].1.active_pane));
        }
    }
}

/// Killing closes the active pane and no other. A pane opens in its stead exactly
/// where it was the last one. The panes that there are then are each shown once,
/// and the active one is among those of the active window.
pub proof fn killing_closes_one_pane(m: MuxView, replies: ReplySeq)
    requires
        m.wf(),
        m.next_id <= u32::MAX - 3,
    ensures
        model::killed(m, replies) matches Ok((n, o)) ==> {
            let a = model::window_of(m).active_pane;
            &&& o.closed_panes == seq![a]
            &&& forall|p: PaneId| #[trigger]
                has_pane(n, p) <==> (has_pane(m, p) && p != a) || o.opened_panes.contains(p)
            &&& o.opened_panes.len() > 0 <==> m.panes.len() == 1
            &&& n.wf()
            &&& forall|p: PaneId| #[trigger] has_pane(n, p) <==> is_shown(n, p)
            &&& n.sessions.len() > 0
            &&& layout::leaves_of(model::window_of(n).layout).contains(
                model::window_of(n).active_pane,
            )
        },
{
    killing_keeps_order(m, replies);
    match model::killed(m, replies) {
        Err(_) => {},
        Ok((n, o)) => {
            the_active_exist(m);
            the_active_exist(n);
            the_last_pane_is_alone(m, replies);
            let a = model::window_of(m).active_pane;
            let rest = maps::taken(m.panes, a);
            assert forall|p: PaneId| #[trigger] has_pane(n, p) <==> (has_pane(m, p) && p != a)
                || o.opened_panes.contains(p) by {
                one_key_less(m.panes, a, p);
                if o.opened_panes.len() > 0 {
                    one_key_less(m.panes, a, m.next_id);
                    later_keys_are_free(m.panes, m.next_id, m.next_id);
                    one_more_key(rest, m.next_id, model::fresh_pane(), p);
                    assert(o.opened_panes[0] == m.next_id);
                }
            }
            assert forall|p: PaneId| #[trigger] has_pane(n, p) <==> is_shown(n, p) by {
                maps::key_at_is_first(n.panes, p);
                if has_pane(n, p) {
                    assert(is_shown(n, n.panes[maps::key_at(n.panes, p)->0].0));
                }
            }
        },
    }
}

} // verus!
