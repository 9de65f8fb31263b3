//! What the multiplexer's operations do, over plain views.

use crate::ask::{FloatOp, QueryView, ReplySeq};
use crate::editor::EditorView;
use crate::expr::ScopeSeq;
use crate::mux::layout;
use crate::mux::layout::{Placed, Rect};
use crate::mux::maps;
use crate::mux::share;
use crate::mux::share::{Share, HUNDREDTH, TWO};
use crate::mux::tree::{Dir, LayoutView, PaneId};
use crate::mux::{FocusDir, SessionId, WindowId};
use crate::text;
use vstd::prelude::*;

verus! {

pub struct PaneView {
    pub editor: EditorView,
    pub cols: u16,
    pub rows: u16,
    pub running: bool,
}

pub struct WindowView {
    pub id: WindowId,
    pub name: Seq<char>,
    pub layout: LayoutView,
    pub active_pane: PaneId,
    pub zoomed: Option<PaneId>,
}

pub struct SessionView {
    pub id: SessionId,
    pub name: Seq<char>,
    pub windows: Seq<(WindowId, WindowView)>,
    pub active_window: WindowId,
    pub vars: ScopeSeq,
}

#[verifier::ext_equal]
pub struct MuxView {
    pub sessions: Seq<(SessionId, SessionView)>,
    pub active_session: SessionId,
    pub panes: Seq<(PaneId, PaneView)>,
    pub next_id: u32,
}

#[verifier::ext_equal]
pub struct OutcomeView {
    pub opened_panes: Seq<PaneId>,
    pub closed_panes: Seq<PaneId>,
    pub closed_sessions: Seq<SessionId>,
    pub layout_changed: bool,
}

impl OutcomeView {
    /// Nothing happened.
    pub open spec fn none() -> OutcomeView {
        OutcomeView {
            opened_panes: Seq::empty(),
            closed_panes: Seq::empty(),
            closed_sessions: Seq::empty(),
            layout_changed: false,
        }
    }

    /// The arrangement changed.
    pub open spec fn changed() -> OutcomeView {
        OutcomeView { layout_changed: true, ..OutcomeView::none() }
    }

    /// A pane opened.
    pub open spec fn opened(p: PaneId) -> OutcomeView {
        OutcomeView { opened_panes: seq![p], ..OutcomeView::changed() }
    }

    /// A pane closed.
    pub open spec fn closed(p: PaneId) -> OutcomeView {
        OutcomeView { closed_panes: seq![p], ..OutcomeView::changed() }
    }
}

/// A pane that has just opened.
pub open spec fn fresh_pane() -> PaneView {
    PaneView {
        editor: EditorView {
            buffer: Seq::empty(),
            cursor: 0,
            history: Seq::empty(),
            hist_idx: None,
            stashed: Seq::empty(),
            pending: Seq::empty(),
            in_paste: false,
            paste_buf: Seq::empty(),
            last_ok: true,
        },
        cols: 80,
        rows: 24,
        running: false,
    }
}

/// A window of one pane.
pub open spec fn fresh_window(id: WindowId, name: Seq<char>, pane: PaneId) -> WindowView {
    WindowView { id, name, layout: LayoutView::Leaf(pane), active_pane: pane, zoomed: None }
}

/// A session of one window.
pub open spec fn fresh_session(
    id: SessionId,
    name: Seq<char>,
    window: WindowId,
    pane: PaneId,
) -> SessionView {
    SessionView {
        id,
        name,
        windows: maps::put(Seq::empty(), window, fresh_window(window, "main"@, pane)),
        active_window: window,
        vars: Seq::empty(),
    }
}

/// The active session.
pub open spec fn session_of(m: MuxView) -> SessionView {
    m.sessions[maps::key_at(m.sessions, m.active_session)->0].1
}

/// The active window.
pub open spec fn window_of(m: MuxView) -> WindowView {
    let s = session_of(m);
    s.windows[maps::key_at(s.windows, s.active_window)->0].1
}

/// The multiplexer with its active session replaced.
pub open spec fn with_session(m: MuxView, s: SessionView) -> MuxView {
    MuxView {
        sessions: m.sessions.update(
            maps::key_at(m.sessions, m.active_session)->0,
            (m.active_session, s),
        ),
        ..m
    }
}

/// The multiplexer with its active window replaced.
pub open spec fn with_window(m: MuxView, w: WindowView) -> MuxView {
    let s = session_of(m);
    with_session(
        m,
        SessionView { windows: maps::put(s.windows, s.active_window, w), ..s },
    )
}

/// The multiplexer with one more pane.
pub open spec fn pane_added(m: MuxView) -> MuxView {
    MuxView {
        panes: maps::put(m.panes, m.next_id, fresh_pane()),
        next_id: (m.next_id + 1) as u32,
        ..m
    }
}

/// The multiplexer with one more session, which is not the active one yet. The
/// pane, the window and the session take the next three ids.
pub open spec fn session_added(m: MuxView, name: Seq<char>) -> MuxView {
    let pane = m.next_id;
    let window = (m.next_id + 1) as u32;
    let session = (m.next_id + 2) as u32;
    MuxView {
        panes: maps::put(m.panes, pane, fresh_pane()),
        sessions: maps::put(m.sessions, session, fresh_session(session, name, window, pane)),
        next_id: (m.next_id + 3) as u32,
        ..m
    }
}

/// A multiplexer at its start.
pub open spec fn started() -> MuxView {
    let bare = MuxView {
        sessions: Seq::empty(),
        active_session: 0,
        panes: Seq::empty(),
        next_id: 0,
    };
    MuxView { active_session: 2, ..session_added(bare, "main"@) }
}

/// The active pane split; the new pane becomes active.
pub open spec fn split_done(m: MuxView, dir: Dir) -> MuxView {
    let w = window_of(m);
    with_window(
        pane_added(m),
        WindowView {
            layout: layout::split_view(w.layout, w.active_pane, dir, m.next_id),
            active_pane: m.next_id,
            zoomed: None,
            ..w
        },
    )
}

/// The session emptied: the last of the others takes over, or a fresh "main"
/// session where there is none.
pub open spec fn session_closed(m: MuxView, target: PaneId) -> (MuxView, OutcomeView) {
    let left = maps::taken(m.sessions, m.active_session);
    let outcome = OutcomeView {
        closed_sessions: seq![m.active_session],
        ..OutcomeView::closed(target)
    };
    let rest = MuxView { sessions: left, ..m };
    if left.len() > 0 {
        (MuxView { active_session: left.last().0, ..rest }, outcome)
    } else {
        (
            MuxView {
                active_session: (m.next_id + 2) as u32,
                ..session_added(rest, "main"@)
            },
            OutcomeView { opened_panes: seq![m.next_id], ..outcome },
        )
    }
}

/// The window emptied: the last of the session's others takes over.
pub open spec fn window_closed(m: MuxView, target: PaneId) -> (MuxView, OutcomeView) {
    let s = session_of(m);
    let left = maps::taken(s.windows, s.active_window);
    if left.len() > 0 {
        (
            with_session(m, SessionView { windows: left, active_window: left.last().0, ..s }),
            OutcomeView::closed(target),
        )
    } else {
        session_closed(m, target)
    }
}

/// The active pane killed, with the tree collapsed. Cascades window → session.
pub open spec fn killed(m: MuxView, replies: ReplySeq) -> Result<(MuxView, OutcomeView), QueryView> {
    let w = window_of(m);
    let target = w.active_pane;
    let rest = MuxView { panes: maps::taken(m.panes, target), ..m };
    match layout::removed(w.layout, target, replies) {
        Err(q) => Err(q),
        Ok(Some(kept)) => Ok(
            (
                with_window(
                    rest,
                    WindowView {
                        layout: kept,
                        active_pane: layout::leaves_of(kept).last(),
                        zoomed: None,
                        ..w
                    },
                ),
                OutcomeView::closed(target),
            ),
        ),
        Ok(None) => Ok(window_closed(rest, target)),
    }
}

/// A new window in the active session.
pub open spec fn window_added(m: MuxView) -> MuxView {
    let pane = m.next_id;
    let window = (m.next_id + 1) as u32;
    let s = session_of(m);
    with_session(
        MuxView {
            panes: maps::put(m.panes, pane, fresh_pane()),
            next_id: (m.next_id + 2) as u32,
            ..m
        },
        SessionView {
            windows: maps::put(
                s.windows,
                window,
                fresh_window(window, "win"@ + text::numeral(pane as nat), pane),
            ),
            active_window: window,
            ..s
        },
    )
}

/// Where an id stands among others.
pub open spec fn place_of(ids: Seq<u32>, x: u32) -> Option<int>
    decreases ids.len(),
{
    if ids.len() == 0 {
        None
    } else {
        match place_of(ids.drop_last(), x) {
            Some(i) => Some(i),
            None => if ids.last() == x {
                Some(ids.len() - 1)
            } else {
                None
            },
        }
    }
}

/// `place_of` finds the first place of an id, and nothing only where it is
/// missing.
pub proof fn place_of_is_first(ids: Seq<u32>, x: u32)
    ensures
        match place_of(ids, x) {
            Some(i) => 0 <= i < ids.len() && ids[i] == x && forall|j: int|
                0 <= j < i ==> #[trigger] ids[j] != x,
            None => !ids.contains(x),
        },
    decreases ids.len(),
{
    if ids.len() > 0 {
        let init = ids.drop_last();
        place_of_is_first(init, x);
        match place_of(init, x) {
            Some(i) => {
                assert(init[i] == ids[i]);
                assert forall|j: int| 0 <= j < i implies #[trigger] ids[j] != x by {
                    assert(init[j] == ids[j]);
                }
            },
            None => {
                assert forall|j: int| 0 <= j < ids.len() - 1 implies #[trigger] ids[j] != x by {
                    assert(init[j] == ids[j]);
                    if ids[j] == x {
                        assert(init.contains(x));
                    }
                }
            },
        }
    }
}

/// The id that follows, or precedes, another in a ring.
pub open spec fn neighbour(ids: Seq<u32>, current: u32, forward: bool) -> u32 {
    let at = match place_of(ids, current) {
        Some(i) => i,
        None => 0,
    };
    let n = ids.len() as int;
    if n <= 1 {
        current
    } else if forward {
        ids[if at + 1 == n { 0 } else { at + 1 }]
    } else {
        ids[if at == 0 { n - 1 } else { at - 1 }]
    }
}

/// Cycling forward and backward undo each other.
pub proof fn cycling_is_invertible(ids: Seq<u32>, current: u32, forward: bool)
    requires
        ids.no_duplicates(),
        ids.contains(current),
    ensures
        ids.contains(neighbour(ids, current, forward)),
        neighbour(ids, neighbour(ids, current, forward), !forward) == current,
{
    place_of_is_first(ids, current);
    let next = neighbour(ids, current, forward);
    place_of_is_first(ids, next);
    let at = place_of(ids, current)->0;
    if ids.len() > 1 {
        let k = if forward {
            if at + 1 == ids.len() {
                0
            } else {
                at + 1
            }
        } else {
            if at == 0 {
                ids.len() - 1
            } else {
                at - 1
            }
        };
        assert(ids[k] == next);
        assert(ids.contains(next));
        assert(place_of(ids, next) == Some(k)) by {
            let j = place_of(ids, next)->0;
            assert(ids[j] == ids[k]);
        }
    }
}

pub open spec fn window_cycled(m: MuxView, forward: bool) -> MuxView {
    let s = session_of(m);
    with_session(
        m,
        SessionView {
            active_window: neighbour(maps::keys_of(s.windows), s.active_window, forward),
            ..s
        },
    )
}

pub open spec fn session_cycled(m: MuxView, forward: bool) -> MuxView {
    MuxView {
        active_session: neighbour(maps::keys_of(m.sessions), m.active_session, forward),
        ..m
    }
}

pub open spec fn zoom_toggled(m: MuxView) -> MuxView {
    let w = window_of(m);
    with_window(
        m,
        WindowView {
            zoomed: match w.zoomed {
                Some(_) => None,
                None => Some(w.active_pane),
            },
            ..w
        },
    )
}

/// The middle of a rectangle.
pub open spec fn center(r: Rect, replies: ReplySeq) -> Result<(Share, Share), QueryView> {
    let two = Share { bits: TWO };
    match share::computed(FloatOp::Div, r.w, two, replies) {
        Err(q) => Err(q),
        Ok(half_w) => match share::computed(FloatOp::Add, r.x, half_w, replies) {
            Err(q) => Err(q),
            Ok(cx) => match share::computed(FloatOp::Div, r.h, two, replies) {
                Err(q) => Err(q),
                Ok(half_h) => match share::computed(FloatOp::Add, r.y, half_h, replies) {
                    Err(q) => Err(q),
                    Ok(cy) => Ok((cx, cy)),
                },
            },
        },
    }
}

/// Does a point lie clearly in a direction of another?
pub open spec fn lies(
    dir: FocusDir,
    from: (Share, Share),
    c: (Share, Share),
    replies: ReplySeq,
) -> Result<bool, QueryView> {
    let gap = Share { bits: HUNDREDTH };
    match dir {
        FocusDir::Left => match share::computed(FloatOp::Sub, from.0, gap, replies) {
            Ok(edge) => Ok(c.0.below(edge)),
            Err(q) => Err(q),
        },
        FocusDir::Right => match share::computed(FloatOp::Add, from.0, gap, replies) {
            Ok(edge) => Ok(edge.below(c.0)),
            Err(q) => Err(q),
        },
        FocusDir::Up => match share::computed(FloatOp::Sub, from.1, gap, replies) {
            Ok(edge) => Ok(c.1.below(edge)),
            Err(q) => Err(q),
        },
        FocusDir::Down => match share::computed(FloatOp::Add, from.1, gap, replies) {
            Ok(edge) => Ok(edge.below(c.1)),
            Err(q) => Err(q),
        },
        FocusDir::Next => Ok(false),
    }
}

/// The square of the distance of two points.
pub open spec fn dist2(a: (Share, Share), b: (Share, Share), replies: ReplySeq) -> Result<
    Share,
    QueryView,
> {
    match share::computed(FloatOp::Sub, a.0, b.0, replies) {
        Err(q) => Err(q),
        Ok(dx) => match share::computed(FloatOp::Sub, a.1, b.1, replies) {
            Err(q) => Err(q),
            Ok(dy) => match share::computed(FloatOp::Mul, dx, dx, replies) {
                Err(q) => Err(q),
                Ok(xx) => match share::computed(FloatOp::Mul, dy, dy, replies) {
                    Err(q) => Err(q),
                    Ok(yy) => share::computed(FloatOp::Add, xx, yy, replies),
                },
            },
        },
    }
}

/// How far a pane is in a direction, if it lies there at all.
pub open spec fn reach(
    r: Placed,
    current: PaneId,
    dir: FocusDir,
    from: (Share, Share),
    replies: ReplySeq,
) -> Result<Option<Share>, QueryView> {
    if r.0 == current {
        Ok(None)
    } else {
        match center(r.1, replies) {
            Err(q) => Err(q),
            Ok(c) => match lies(dir, from, c, replies) {
                Err(q) => Err(q),
                Ok(false) => Ok(None),
                Ok(true) => match dist2(from, c, replies) {
                    Err(q) => Err(q),
                    Ok(d) => Ok(Some(d)),
                },
            },
        }
    }
}

/// The nearest pane in a direction among the first `n`: of several equally
/// near, the first.
pub open spec fn nearest_upto(
    rects: Seq<Placed>,
    n: nat,
    current: PaneId,
    dir: FocusDir,
    from: (Share, Share),
    replies: ReplySeq,
) -> Result<Option<(PaneId, Share)>, QueryView>
    decreases n,
{
    if n == 0 || n > rects.len() {
        Ok(None)
    } else {
        match nearest_upto(rects, (n - 1) as nat, current, dir, from, replies) {
            Err(q) => Err(q),
            Ok(best) => match reach(rects[n - 1], current, dir, from, replies) {
                Err(q) => Err(q),
                Ok(None) => Ok(best),
                Ok(Some(d)) => match best {
                    Some((p, e)) => if d.below(e) {
                        Ok(Some((rects[n - 1].0, d)))
                    } else {
                        Ok(best)
                    },
                    None => Ok(Some((rects[n - 1].0, d))),
                },
            },
        }
    }
}

/// The first rectangle of a pane.
pub open spec fn rect_of(rects: Seq<Placed>, p: PaneId) -> Option<Rect> {
    match place_of(layout::placed_ids(rects), p) {
        Some(i) => Some(rects[i].1),
        None => None,
    }
}

/// The pane that focus moves to, if it moves.
pub open spec fn focus_target(w: WindowView, dir: FocusDir, replies: ReplySeq) -> Result<
    Option<PaneId>,
    QueryView,
> {
    let order = layout::leaves_of(w.layout);
    if order.len() <= 1 {
        Ok(None)
    } else if dir == FocusDir::Next {
        Ok(
            Some(
                neighbour(
                    order,
                    match place_of(order, w.active_pane) {
                        Some(_) => w.active_pane,
                        None => order[0],
                    },
                    true,
                ),
            ),
        )
    } else {
        match layout::laid_out(w.layout, Rect::whole(), replies) {
            Err(q) => Err(q),
            Ok(rects) => match rect_of(rects, w.active_pane) {
                None => Ok(None),
                Some(r) => match center(r, replies) {
                    Err(q) => Err(q),
                    Ok(from) => match nearest_upto(
                        rects,
                        rects.len(),
                        w.active_pane,
                        dir,
                        from,
                        replies,
                    ) {
                        Err(q) => Err(q),
                        Ok(None) => Ok(None),
                        Ok(Some((p, _))) => Ok(Some(p)),
                    },
                },
            },
        }
    }
}

/// The multiplexer after focus moved to a pane of the active window. A zoomed
/// window stays zoomed, on the pane with the focus.
pub open spec fn focused_on(m: MuxView, p: PaneId) -> MuxView {
    let w = window_of(m);
    with_window(
        m,
        WindowView {
            active_pane: p,
            zoomed: match w.zoomed {
                Some(_) => Some(p),
                None => None,
            },
            ..w
        },
    )
}

pub open spec fn focus_moved(m: MuxView, dir: FocusDir, replies: ReplySeq) -> Result<
    (MuxView, OutcomeView),
    QueryView,
> {
    match focus_target(window_of(m), dir, replies) {
        Err(q) => Err(q),
        Ok(None) => Ok((m, OutcomeView::none())),
        Ok(Some(p)) => Ok((focused_on(m, p), OutcomeView::changed())),
    }
}

/// The first window that shows a pane.
pub open spec fn window_with(windows: Seq<(WindowId, WindowView)>, p: PaneId) -> Option<int>
    decreases windows.len(),
{
    if windows.len() == 0 {
        None
    } else {
        match window_with(windows.drop_last(), p) {
            Some(j) => Some(j),
            None => if layout::leaves_of(windows.last().1.layout).contains(p) {
                Some(windows.len() - 1)
            } else {
                None
            },
        }
    }
}

/// The first session that owns a pane.
pub open spec fn session_with(sessions: Seq<(SessionId, SessionView)>, p: PaneId) -> Option<int>
    decreases sessions.len(),
{
    if sessions.len() == 0 {
        None
    } else {
        match session_with(sessions.drop_last(), p) {
            Some(i) => Some(i),
            None => if window_with(sessions.last().1.windows, p) is Some {
                Some(sessions.len() - 1)
            } else {
                None
            },
        }
    }
}

/// The multiplexer after a pane was chosen, wherever it is.
pub open spec fn pane_focused(m: MuxView, p: PaneId) -> (MuxView, OutcomeView) {
    match session_with(m.sessions, p) {
        None => (m, OutcomeView::none()),
        Some(i) => {
            let s = m.sessions[i].1;
            let j = window_with(s.windows, p)->0;
            let wid = s.windows[j].0;
            let w = s.windows[j].1;
            (
                MuxView {
                    sessions: m.sessions.update(
                        i,
                        (
                            m.sessions[i].0,
                            SessionView {
                                active_window: wid,
                                windows: s.windows.update(
                                    j,
                                    (wid, WindowView { active_pane: p, ..w }),
                                ),
                                ..s
                            },
                        ),
                    ),
                    active_session: s.id,
                    ..m
                },
                OutcomeView::changed(),
            )
        },
    }
}

/// A new session, which becomes the active one.
pub open spec fn session_opened(m: MuxView, name: Option<Seq<char>>) -> MuxView {
    let name = match name {
        Some(n) => n,
        None => "session"@ + text::numeral(m.sessions.len()),
    };
    MuxView { active_session: (m.next_id + 2) as u32, ..session_added(m, name) }
}

/// The first session of a name.
pub open spec fn session_named(sessions: Seq<(SessionId, SessionView)>, name: Seq<char>) -> Option<
    int,
>
    decreases sessions.len(),
{
    if sessions.len() == 0 {
        None
    } else {
        match session_named(sessions.drop_last(), name) {
            Some(i) => Some(i),
            None => if sessions.last().1.name == name {
                Some(sessions.len() - 1)
            } else {
                None
            },
        }
    }
}

/// The multiplexer after a window of the active session was chosen.
pub open spec fn window_focused(m: MuxView, window: WindowId) -> (MuxView, OutcomeView) {
    let s = session_of(m);
    if maps::key_at(s.windows, window) is Some {
        (with_session(m, SessionView { active_window: window, ..s }), OutcomeView::changed())
    } else {
        (m, OutcomeView::none())
    }
}

/// The multiplexer after a session was chosen.
pub open spec fn session_focused(m: MuxView, session: SessionId) -> (MuxView, OutcomeView) {
    if maps::key_at(m.sessions, session) is Some {
        (MuxView { active_session: session, ..m }, OutcomeView::changed())
    } else {
        (m, OutcomeView::none())
    }
}

/// The multiplexer after a divider drag in the active window.
pub open spec fn divider_dragged(
    m: MuxView,
    path: Seq<usize>,
    fraction: Share,
    replies: ReplySeq,
) -> Result<(MuxView, OutcomeView), QueryView> {
    let w = window_of(m);
    match layout::resized(w.layout, path, fraction, replies) {
        Err(q) => Err(q),
        Ok(None) => Ok((m, OutcomeView::none())),
        Ok(Some(out)) => Ok(
            (with_window(m, WindowView { layout: out, ..w }), OutcomeView::changed()),
        ),
    }
}

} // verus!
