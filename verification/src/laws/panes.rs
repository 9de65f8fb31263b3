//! What the multiplexer's operations do to the panes, seen from where they lie.

use crate::ask;
use crate::ask::{FloatOp, QueryView, ReplySeq, ReplyView};
use crate::mux::layout;
use crate::mux::layout::{Placed, Rect};
use crate::mux::maps;
use crate::mux::model;
use crate::mux::model::{MuxView, SessionView, WindowView};
use crate::mux::share;
use crate::mux::share::Share;
use crate::mux::soundness;
use crate::mux::tree::{Dir, LayoutView, PaneId};
use crate::mux::FocusDir;
use vstd::prelude::*;

verus! {

/// What the host answers to an operation on two numbers.
pub open spec fn answer(op: FloatOp, a: Share, b: Share, replies: ReplySeq) -> Option<Share> {
    match ask::reply_to(replies, QueryView::Share(op, a, b)) {
        Some(ReplyView::Share(x)) => Some(x),
        _ => None,
    }
}

/// The host's sums and differences go the right way: to add what is not negative
/// never gives less, to take it away never gives more, and what is no number stays
/// none.
pub open spec fn steady(replies: ReplySeq) -> bool {
    &&& forall|a: Share, b: Share| #[trigger]
        answer(FloatOp::Add, a, b, replies) matches Some(c) ==> {
            &&& a.nan() ==> c.nan()
            &&& b.rank() >= 0 ==> !c.below(a)
        }
    &&& forall|a: Share, b: Share| #[trigger]
        answer(FloatOp::Sub, a, b, replies) matches Some(c) ==> {
            &&& a.nan() ==> c.nan()
            &&& b.rank() >= 0 ==> !a.below(c)
        }
}

/// A place half of an extent behind a start.
pub open spec fn half_behind(start: Share, extent: Share, replies: ReplySeq) -> Option<Share> {
    match answer(FloatOp::Div, extent, Share { bits: 0x4000_0000 }, replies) {
        Some(half) => answer(FloatOp::Add, start, half, replies),
        None => None,
    }
}

/// The middle of a rectangle: half of its width behind its left edge, half of its
/// height below its upper one.
pub open spec fn middle(r: Rect, x: Share, y: Share, replies: ReplySeq) -> bool {
    half_behind(r.x, r.w, replies) == Some(x) && half_behind(r.y, r.h, replies) == Some(y)
}

/// Is a point on the side of another that a direction names?
pub open spec fn beyond(dir: FocusDir, from: (Share, Share), to: (Share, Share)) -> bool {
    match dir {
        FocusDir::Left => to.0.below(from.0),
        FocusDir::Right => from.0.below(to.0),
        FocusDir::Up => to.1.below(from.1),
        FocusDir::Down => from.1.below(to.1),
        FocusDir::Next => false,
    }
}

/// Is it there by more than a hundredth?
pub open spec fn well_beyond(
    dir: FocusDir,
    from: (Share, Share),
    to: (Share, Share),
    replies: ReplySeq,
) -> bool {
    let gap = Share { bits: 0x3c23_d70a };
    match dir {
        FocusDir::Left => answer(FloatOp::Sub, from.0, gap, replies) matches Some(e)
            && to.0.below(e),
        FocusDir::Right => answer(FloatOp::Add, from.0, gap, replies) matches Some(e)
            && e.below(to.0),
        FocusDir::Up => answer(FloatOp::Sub, from.1, gap, replies) matches Some(e) && to.1.below(
            e,
        ),
        FocusDir::Down => answer(FloatOp::Add, from.1, gap, replies) matches Some(e) && e.below(
            to.1,
        ),
        FocusDir::Next => false,
    }
}

/// The square of the distance of two points.
pub open spec fn apart(
    a: (Share, Share),
    b: (Share, Share),
    d: Share,
    replies: ReplySeq,
) -> bool {
    exists|dx: Share, dy: Share, xx: Share, yy: Share|
        {
            &&& answer(FloatOp::Sub, a.0, b.0, replies) == Some(dx)
            &&& answer(FloatOp::Sub, a.1, b.1, replies) == Some(dy)
            &&& #[trigger] answer(FloatOp::Mul, dx, dx, replies) == Some(xx)
            &&& #[trigger] answer(FloatOp::Mul, dy, dy, replies) == Some(yy)
            &&& #[trigger] answer(FloatOp::Add, xx, yy, replies) == Some(d)
        }
}

proof fn asking(replies: ReplySeq)
    ensures
        forall|op: FloatOp, a: Share, b: Share|
            #![trigger share::computed(op, a, b, replies)]
            match answer(op, a, b, replies) {
                Some(x) => share::computed(op, a, b, replies) == Ok::<Share, QueryView>(x),
                None => share::computed(op, a, b, replies) is Err,
            },
{
}

proof fn the_middle(r: Rect, replies: ReplySeq)
    ensures
        match model::center(r, replies) {
            Ok(c) => middle(r, c.0, c.1, replies),
            Err(_) => !exists|x: Share, y: Share| middle(r, x, y, replies),
        },
{
    asking(replies);
}

proof fn the_side(dir: FocusDir, from: (Share, Share), to: (Share, Share), replies: ReplySeq)
    ensures
        model::lies(dir, from, to, replies) matches Ok(b) ==> b == well_beyond(
            dir,
            from,
            to,
            replies,
        ),
        steady(replies) && well_beyond(dir, from, to, replies) ==> beyond(dir, from, to),
{
    asking(replies);
    let gap = Share { bits: 0x3c23_d70a };
    assert(gap.rank() >= 0);
    assert(share::HUNDREDTH == 0x3c23_d70a);
    if steady(replies) {
        let a = answer(FloatOp::Add, from.0, gap, replies);
        let b = answer(FloatOp::Add, from.1, gap, replies);
        let c = answer(FloatOp::Sub, from.0, gap, replies);
        let d = answer(FloatOp::Sub, from.1, gap, replies);
    }
}

proof fn the_distance(a: (Share, Share), b: (Share, Share), replies: ReplySeq)
    ensures
        model::dist2(a, b, replies) matches Ok(d) ==> apart(a, b, d, replies),
        forall|d: Share| #[trigger] apart(a, b, d, replies) ==> model::dist2(a, b, replies) == Ok::<
            Share,
            QueryView,
        >(d),
{
    asking(replies);
    if let Ok(d) = model::dist2(a, b, replies) {
        let dx = answer(FloatOp::Sub, a.0, b.0, replies)->0;
        let dy = answer(FloatOp::Sub, a.1, b.1, replies)->0;
        let xx = answer(FloatOp::Mul, dx, dx, replies)->0;
        let yy = answer(FloatOp::Mul, dy, dy, replies)->0;
        assert(answer(FloatOp::Mul, dx, dx, replies) == Some(xx));
        assert(answer(FloatOp::Mul, dy, dy, replies) == Some(yy));
        assert(answer(FloatOp::Add, xx, yy, replies) == Some(d));
    }
}

/// The pane at a place of the list is one that focus could go to.
pub open spec fn candidate(
    rects: Seq<Placed>,
    k: int,
    current: PaneId,
    dir: FocusDir,
    from: (Share, Share),
    to: (Share, Share),
    replies: ReplySeq,
) -> bool {
    &&& 0 <= k < rects.len()
    &&& rects[k].0 != current
    &&& middle(rects[k].1, to.0, to.1, replies)
    &&& well_beyond(dir, from, to, replies)
}

proof fn the_nearest(
    rects: Seq<Placed>,
    n: nat,
    current: PaneId,
    dir: FocusDir,
    from: (Share, Share),
    replies: ReplySeq,
)
    requires
        n <= rects.len(),
    ensures
        match model::nearest_upto(rects, n, current, dir, from, replies) {
            Ok(Some((p, d))) => {
                &&& exists|k: int, to: (Share, Share)|
                    {
                        &&& #[trigger] candidate(rects, k, current, dir, from, to, replies)
                        &&& k < n
                        &&& rects[k].0 == p
                        &&& apart(from, to, d, replies)
                    }
                &&& forall|k: int, to: (Share, Share), e: Share|
                    #![trigger candidate(rects, k, current, dir, from, to, replies), apart(
                        from,
                        to,
                        e,
                        replies,
                    )]
                    candidate(rects, k, current, dir, from, to, replies) && k < n && apart(
                        from,
                        to,
                        e,
                        replies,
                    ) ==> !e.below(d)
            },
            Ok(None) => forall|k: int, to: (Share, Share)|
                k < n ==> !#[trigger] candidate(rects, k, current, dir, from, to, replies),
            Err(_) => true,
        },
    decreases n,
{
    if n > 0 {
        let m = (n - 1) as nat;
        the_nearest(rects, m, current, dir, from, replies);
        let last = rects[n - 1];
        the_middle(last.1, replies);
        if last.0 != current && model::nearest_upto(rects, m, current, dir, from, replies) is Ok {
            if let Ok(c) = model::center(last.1, replies) {
                the_side(dir, from, c, replies);
                the_distance(from, c, replies);
                assert forall|to: (Share, Share)| #[trigger]
                    candidate(rects, n - 1, current, dir, from, to, replies) implies to == c by {}
                if model::lies(dir, from, c, replies) == Ok::<bool, QueryView>(true) {
                    assert(candidate(rects, n - 1, current, dir, from, c, replies));
                }
            }
        }
    }
}

/// Where focus moves in a direction, it moves to another pane of the window whose
/// middle lies on that side of the middle of the pane it leaves, and no pane that
/// lies there by more than a hundredth is nearer. Where some pane lies there so,
/// focus does move.
pub proof fn focus_goes_where_it_is_told(
    w: WindowView,
    dir: FocusDir,
    rects: Seq<Placed>,
    at: int,
    from: (Share, Share),
    replies: ReplySeq,
)
    requires
        dir != FocusDir::Next,
        layout::leaves_of(w.layout).no_duplicates(),
        layout::laid_out(w.layout, Rect::whole(), replies) == Ok::<Seq<Placed>, QueryView>(rects),
        0 <= at < rects.len(),
        rects[at].0 == w.active_pane,
        middle(rects[at].1, from.0, from.1, replies),
        steady(replies),
    ensures
        match model::focus_target(w, dir, replies) {
            Ok(Some(p)) => exists|k: int, to: (Share, Share), d: Share|
                {
                    &&& 0 <= k < rects.len()
                    &&& rects[k].0 == p
                    &&& p != w.active_pane
                    &&& middle(rects[k].1, to.0, to.1, replies)
                    &&& #[trigger] apart(from, to, d, replies)
                    &&& #[trigger] candidate(rects, k, w.active_pane, dir, from, to, replies)
                    &&& beyond(dir, from, to)
                    &&& forall|i: int, other: (Share, Share), e: Share|
                        #![trigger candidate(rects, i, w.active_pane, dir, from, other, replies), apart(
                            from,
                            other,
                            e,
                            replies,
                        )]
                        candidate(rects, i, w.active_pane, dir, from, other, replies) && apart(
                            from,
                            other,
                            e,
                            replies,
                        ) ==> !e.below(d)
                },
            Ok(None) => forall|k: int, to: (Share, Share)|
                !#[trigger] candidate(rects, k, w.active_pane, dir, from, to, replies),
            Err(_) => true,
        },
{
    layout::layout_places_every_pane(w.layout, Rect::whole(), replies);
    let ids = layout::placed_ids(rects);
    assert(ids[at] == w.active_pane);
    model::place_of_is_first(ids, w.active_pane);
    let i = model::place_of(ids, w.active_pane)->0;
    assert(i == at) by {
        assert(ids[i] == ids[at]);
    }
    the_middle(rects[at].1, replies);
    the_nearest(rects, rects.len(), w.active_pane, dir, from, replies);
    if rects.len() <= 1 {
        assert(layout::leaves_of(w.layout).len() <= 1);
        assert forall|k: int, to: (Share, Share)|
            !#[trigger] candidate(rects, k, w.active_pane, dir, from, to, replies) by {
            if 0 <= k < rects.len() {
                assert(k == at);
            }
        }
    } else if let Ok(Some(p)) = model::focus_target(w, dir, replies) {
        let d = model::nearest_upto(rects, rects.len(), w.active_pane, dir, from, replies)->Ok_0->0
            .1;
        let (k, to) = choose|k: int, to: (Share, Share)|
            {
                &&& #[trigger] candidate(rects, k, w.active_pane, dir, from, to, replies)
                &&& k < rects.len()
                &&& rects[k].0 == p
                &&& apart(from, to, d, replies)
            };
        the_side(dir, from, to, replies);
        assert(apart(from, to, d, replies));
        assert(candidate(rects, k, w.active_pane, dir, from, to, replies));
    }
}

/// The active pane.
pub open spec fn active(m: MuxView) -> PaneId {
    model::window_of(m).active_pane
}

/// The panes of the active window, in visual order.
pub open spec fn order(m: MuxView) -> Seq<PaneId> {
    layout::leaves_of(model::window_of(m).layout)
}

/// Everything outside the active window is as it was: the sessions and which one is
/// active, their windows but that one, and which window of each is active.
pub open spec fn elsewhere_same(m: MuxView, n: MuxView) -> bool {
    &&& n.active_session == m.active_session
    &&& n.sessions.len() == m.sessions.len()
    &&& forall|i: int|
        0 <= i < m.sessions.len() ==> {
            let s = m.sessions[i];
            let t = #[trigger] n.sessions[i];
            &&& t.0 == s.0
            &&& s.0 != m.active_session ==> t == s
            &&& t.1.id == s.1.id && t.1.name == s.1.name && t.1.vars == s.1.vars
            &&& t.1.active_window == s.1.active_window
            &&& t.1.windows.len() == s.1.windows.len()
            &&& forall|j: int|
                0 <= j < s.1.windows.len() ==> (#[trigger] t.1.windows[j]).0 == s.1.windows[j].0
                    && (s.1.windows[j].0 != s.1.active_window ==> t.1.windows[j]
                    == s.1.windows[j])
        }
}

pub(crate) proof fn replacing(m: MuxView, panes: Seq<(PaneId, model::PaneView)>, next_id: u32, w: WindowView)
    requires
        m.wf(),
    ensures
        ({
            let n = model::with_window(MuxView { panes, next_id, ..m }, w);
            &&& model::window_of(n) == w
            &&& elsewhere_same(m, n)
            &&& n.panes == panes
            &&& n.next_id == next_id
        }),
{
    soundness::the_active_exist(m);
    let i = maps::key_at(m.sessions, m.active_session)->0;
    let s = model::session_of(m);
    let j = maps::key_at(s.windows, s.active_window)->0;
    let n = model::with_window(MuxView { panes, next_id, ..m }, w);
    assert(n.sessions[i] == (
        m.active_session,
        SessionView { windows: s.windows.update(j, (s.active_window, w)), ..s },
    ));
    maps::key_at_is_first(m.sessions, m.active_session);
    maps::key_at_is_first(n.sessions, m.active_session);
    let k = maps::key_at(n.sessions, m.active_session)->0;
    assert(k == i) by {
        assert(n.sessions[i].0 == m.active_session);
        if k < i {
            assert(n.sessions[k] == m.sessions[k]);
        }
    }
    let t = n.sessions[i].1;
    maps::key_at_is_first(s.windows, s.active_window);
    maps::key_at_is_first(t.windows, s.active_window);
    let l = maps::key_at(t.windows, s.active_window)->0;
    assert(l == j) by {
        assert(t.windows[j].0 == s.active_window);
        if l < j {
            assert(t.windows[l] == s.windows[l]);
        }
    }
    assert forall|x: int| 0 <= x < m.sessions.len() implies {
        let s = m.sessions[x];
        let t = #[trigger] n.sessions[x];
        &&& t.0 == s.0
        &&& s.0 != m.active_session ==> t == s
        &&& t.1.id == s.1.id && t.1.name == s.1.name && t.1.vars == s.1.vars
        &&& t.1.active_window == s.1.active_window
        &&& t.1.windows.len() == s.1.windows.len()
        &&& forall|j: int|
            0 <= j < s.1.windows.len() ==> (#[trigger] t.1.windows[j]).0 == s.1.windows[j].0 && (
            s.1.windows[j].0 != s.1.active_window ==> t.1.windows[j] == s.1.windows[j])
    } by {
        if x != i {
            assert(n.sessions[x] == m.sessions[x]);
        } else {
            assert forall|y: int| 0 <= y < s.windows.len() implies (#[trigger] t.windows[y]).0
                == s.windows[y].0 && (s.windows[y].0 != s.active_window ==> t.windows[y]
                == s.windows[y]) by {
                if y != j {
                    assert(t.windows[y] == s.windows[y]);
                }
            }
        }
    }
}

/// Moving the focus changes which pane is active, and nothing else but what is
/// zoomed: that goes with the focus.
pub proof fn focus_changes_the_active_pane(m: MuxView, dir: FocusDir, replies: ReplySeq)
    requires
        m.wf(),
    ensures
        match model::focus_target(model::window_of(m), dir, replies) {
            Ok(Some(p)) => model::focus_moved(m, dir, replies) matches Ok((n, o)) && {
                &&& active(n) == p
                &&& model::window_of(n).layout == model::window_of(m).layout
                &&& model::window_of(n).zoomed == (if model::window_of(m).zoomed is Some {
                    Some(p)
                } else {
                    None
                })
                &&& elsewhere_same(m, n)
                &&& n.panes == m.panes
                &&& o.layout_changed && o.opened_panes.len() == 0 && o.closed_panes.len() == 0
            },
            Ok(None) => model::focus_moved(m, dir, replies) matches Ok((n, o)) && n == m
                && !o.layout_changed,
            Err(_) => model::focus_moved(m, dir, replies) is Err,
        },
{
    let w = model::window_of(m);
    match model::focus_target(w, dir, replies) {
        Ok(Some(p)) => {
            replacing(
                m,
                m.panes,
                m.next_id,
                WindowView {
                    active_pane: p,
                    zoomed: match w.zoomed {
                        Some(_) => Some(p),
                        None => None,
                    },
                    ..w
                },
            );
        },
        _ => {},
    }
}

/// `focus next` goes to the pane behind the active one in visual order, and from the
/// last to the first.
pub proof fn next_goes_round(m: MuxView, replies: ReplySeq, k: int)
    requires
        m.wf(),
        0 <= k < order(m).len(),
        order(m)[k] == active(m),
        order(m).len() > 1,
    ensures
        model::focus_moved(m, FocusDir::Next, replies) matches Ok((n, _)) && active(n) == order(
            m,
        )[if k + 1 == order(m).len() {
            0
        } else {
            k + 1
        }],
{
    soundness::the_active_exist(m);
    focus_changes_the_active_pane(m, FocusDir::Next, replies);
    let ids = order(m);
    model::place_of_is_first(ids, active(m));
    let at = model::place_of(ids, active(m))->0;
    assert(at == k) by {
        assert(ids[at] == ids[k]);
    }
}

/// Splitting opens one pane, right behind the one that was split, and makes it the
/// active one; the window is no longer zoomed. Nothing else changes.
pub proof fn splitting_opens_a_pane_beside(m: MuxView, dir: Dir, k: int)
    requires
        m.wf(),
        m.next_id < u32::MAX,
        0 <= k < order(m).len(),
        order(m)[k] == active(m),
    ensures
        ({
            let n = model::split_done(m, dir);
            &&& active(n) == m.next_id
            &&& order(n) == order(m).take(k + 1) + seq![m.next_id] + order(m).skip(k + 1)
            &&& !order(m).contains(m.next_id)
            &&& model::window_of(n).zoomed is None
            &&& n.panes == m.panes + seq![(m.next_id, model::fresh_pane())]
            &&& elsewhere_same(m, n)
        }),
{
    soundness::the_active_exist(m);
    let w = model::window_of(m);
    let n = model::split_done(m, dir);
    maps::key_at_is_first(m.panes, m.next_id);
    if let Some(x) = maps::key_at(m.panes, m.next_id) {
        assert(m.panes[x].0 < m.next_id);
    }
    assert(maps::put(m.panes, m.next_id, model::fresh_pane()) =~= m.panes + seq![
        (m.next_id, model::fresh_pane()),
    ]);
    replacing(
        m,
        maps::put(m.panes, m.next_id, model::fresh_pane()),
        (m.next_id + 1) as u32,
        WindowView {
            layout: layout::split_view(w.layout, w.active_pane, dir, m.next_id),
            active_pane: m.next_id,
            zoomed: None,
            ..w
        },
    );
    layout::splitting_adds_one_pane(w.layout, w.active_pane, dir, m.next_id);
    put_behind(order(m), active(m), m.next_id, k);
    if order(m).contains(m.next_id) {
        let i = maps::key_at(m.sessions, m.active_session)->0;
        let s = model::session_of(m);
        let j = maps::key_at(s.windows, s.active_window)->0;
        assert(soundness::shows(m, i, j, m.next_id));
    }
}

proof fn put_behind(s: Seq<PaneId>, t: PaneId, x: PaneId, k: int)
    requires
        s.no_duplicates(),
        0 <= k < s.len(),
        s[k] == t,
    ensures
        layout::behind_first(s, t, x) == s.take(k + 1) + seq![x] + s.skip(k + 1),
    decreases s.len(),
{
    if k == 0 {
        assert(layout::behind_first(s, t, x) =~= s.take(k + 1) + seq![x] + s.skip(k + 1));
    } else {
        let rest = s.drop_first();
        assert(s[0] != t);
        assert(rest.no_duplicates()) by {
            assert forall|i: int, j: int|
                0 <= i < rest.len() && 0 <= j < rest.len() && i != j implies rest[i] != rest[j] by {
                assert(s[i + 1] != s[j + 1]);
            }
        }
        put_behind(rest, t, x, k - 1);
        assert(seq![s[0]] + (rest.take(k) + seq![x] + rest.skip(k)) =~= s.take(k + 1) + seq![x]
            + s.skip(k + 1));
    }
}

/// Zooming shows the active pane alone, and once more all of them again.
pub proof fn zooming_toggles(m: MuxView)
    requires
        m.wf(),
    ensures
        ({
            let n = model::zoom_toggled(m);
            &&& model::window_of(m).zoomed is None ==> model::window_of(n).zoomed == Some(
                active(m),
            )
            &&& model::window_of(m).zoomed is Some ==> model::window_of(n).zoomed is None
            &&& active(n) == active(m)
            &&& model::window_of(n).layout == model::window_of(m).layout
            &&& n.panes == m.panes
            &&& elsewhere_same(m, n)
        }),
{
    let w = model::window_of(m);
    replacing(
        m,
        m.panes,
        m.next_id,
        WindowView {
            zoomed: match w.zoomed {
                Some(_) => None,
                None => Some(w.active_pane),
            },
            ..w
        },
    );
}

/// Killing the active pane of a window that has others leaves those, in their
/// order, makes the last of them active and shows them all.
pub proof fn killing_leaves_the_others(m: MuxView, k: int, replies: ReplySeq)
    requires
        m.wf(),
        order(m).len() > 1,
        0 <= k < order(m).len(),
        order(m)[k] == active(m),
    ensures
        model::killed(m, replies) matches Ok((n, o)) ==> {
            &&& order(n) == order(m).take(k) + order(m).skip(k + 1)
            &&& order(n).len() > 0
            &&& active(n) == order(n).last()
            &&& model::window_of(n).zoomed is None
            &&& o.closed_panes == seq![active(m)]
            &&& o.opened_panes.len() == 0
            &&& elsewhere_same(m, n)
            &&& forall|i: int|
                0 <= i < n.panes.len() ==> m.panes.contains(#[trigger] n.panes[i])
                    && n.panes[i].0 != active(m)
        },
{
    soundness::the_active_exist(m);
    let w = model::window_of(m);
    let a = active(m);
    layout::removing_keeps_the_others(w.layout, a, replies);
    others_remain(order(m), a, k);
    match layout::removed(w.layout, a, replies) {
        Ok(Some(kept)) => {
            replacing(
                m,
                maps::taken(m.panes, a),
                m.next_id,
                WindowView {
                    layout: kept,
                    active_pane: layout::leaves_of(kept).last(),
                    zoomed: None,
                    ..w
                },
            );
            let left = maps::taken(m.panes, a);
            maps::key_at_is_first(m.panes, a);
            assert forall|i: int| 0 <= i < left.len() implies m.panes.contains(#[trigger] left[i])
                && left[i].0 != a by {
                match maps::key_at(m.panes, a) {
                    Some(x) => {
                        if i < x {
                            assert(left[i] == m.panes[i]);
                        } else {
                            assert(left[i] == m.panes[i + 1]);
                            assert(m.panes[x].0 != m.panes[i + 1].0);
                        }
                    },
                    None => {},
                }
            }
        },
        _ => {},
    }
}

pub(crate) proof fn others_remain(s: Seq<PaneId>, a: PaneId, k: int)
    requires
        s.no_duplicates(),
        0 <= k < s.len(),
        s[k] == a,
    ensures
        s.filter(layout::other_than(a)) == s.take(k) + s.skip(k + 1),
    decreases s.len(),
{
    reveal(Seq::filter);
    let init = s.drop_last();
    assert(init.no_duplicates()) by {
        assert forall|i: int, j: int|
            0 <= i < init.len() && 0 <= j < init.len() && i != j implies init[i] != init[j] by {
            assert(s[i] != s[j]);
        }
    }
    if k == s.len() - 1 {
        all_remain(init, a);
        assert(s.take(k) + s.skip(k + 1) =~= init);
    } else {
        others_remain(init, a, k);
        assert(s.last() != a);
        assert((init.take(k) + init.skip(k + 1)).push(s.last()) =~= s.take(k) + s.skip(k + 1));
    }
}

proof fn all_remain(s: Seq<PaneId>, a: PaneId)
    requires
        forall|i: int| 0 <= i < s.len() ==> #[trigger] s[i] != a,
    ensures
        s.filter(layout::other_than(a)) == s,
    decreases s.len(),
{
    reveal(Seq::filter);
    if s.len() > 0 {
        let init = s.drop_last();
        assert forall|i: int| 0 <= i < init.len() implies #[trigger] init[i] != a by {
            assert(s[i] != a);
        }
        all_remain(init, a);
        assert(s[s.len() - 1] != a);
        assert(init.push(s.last()) =~= s);
    } else {
        assert(s.filter(layout::other_than(a)) =~= s);
    }
}

/// A new window has one pane of its own, is the active one, and leaves all others as
/// they are.
pub proof fn new_windows_have_one_pane(m: MuxView)
    requires
        m.wf(),
        m.next_id <= u32::MAX - 2,
    ensures
        ({
            let n = model::window_added(m);
            &&& order(n) == seq![m.next_id]
            &&& active(n) == m.next_id
            &&& model::window_of(n).zoomed is None
            &&& n.panes == m.panes + seq![(m.next_id, model::fresh_pane())]
            &&& n.active_session == m.active_session
            &&& model::session_of(n).windows == model::session_of(m).windows + seq![
                (model::session_of(n).active_window, model::window_of(n)),
            ]
            &&& model::session_of(n).name == model::session_of(m).name
            &&& model::session_of(n).vars == model::session_of(m).vars
        }),
{
    soundness::the_active_exist(m);
    let i = maps::key_at(m.sessions, m.active_session)->0;
    let s = model::session_of(m);
    let n = model::window_added(m);
    let id = (m.next_id + 1) as u32;
    maps::key_at_is_first(m.panes, m.next_id);
    maps::key_at_is_first(s.windows, id);
    if let Some(x) = maps::key_at(s.windows, id) {
        assert(soundness::window_ok(s.windows[x], m.next_id));
    }
    maps::key_at_is_first(m.sessions, m.active_session);
    maps::key_at_is_first(n.sessions, m.active_session);
    let k = maps::key_at(n.sessions, m.active_session)->0;
    assert(n.sessions[i].0 == m.active_session);
    assert(k == i) by {
        if k < i {
            assert(n.sessions[k] == m.sessions[k]);
        }
    }
    let t = n.sessions[i].1;
    maps::key_at_is_first(t.windows, id);
    assert(t.windows[s.windows.len() as int].0 == id);
    let l = maps::key_at(t.windows, id)->0;
    assert(l == s.windows.len()) by {
        if l < s.windows.len() {
            assert(t.windows[l] == s.windows[l]);
            assert(soundness::window_ok(s.windows[l], m.next_id));
        }
    }
    assert(t.windows =~= s.windows + seq![(id, model::window_of(n))]);
    assert(n.panes =~= m.panes + seq![(m.next_id, model::fresh_pane())]);
}

/// Going forward through the windows reaches the one behind the active one, and the
/// first behind the last; going backward the other way. The same holds of sessions.
pub proof fn cycling_goes_to_the_neighbour(m: MuxView, forward: bool, i: int, j: int)
    requires
        m.wf(),
        0 <= i < m.sessions.len(),
        m.sessions[i].0 == m.active_session,
        0 <= j < model::session_of(m).windows.len(),
        model::session_of(m).windows[j].0 == model::session_of(m).active_window,
    ensures
        ({
            let count = m.sessions.len();
            let next = if forward {
                if i + 1 == count {
                    0
                } else {
                    i + 1
                }
            } else {
                if i == 0 {
                    count - 1
                } else {
                    i - 1
                }
            };
            let n = model::session_cycled(m, forward);
            n.active_session == m.sessions[next].0 && n.sessions == m.sessions && n.panes
                == m.panes
        }),
        ({
            let windows = model::session_of(m).windows;
            let count = windows.len();
            let next = if forward {
                if j + 1 == count {
                    0
                } else {
                    j + 1
                }
            } else {
                if j == 0 {
                    count - 1
                } else {
                    j - 1
                }
            };
            let n = model::window_cycled(m, forward);
            &&& model::session_of(n).active_window == windows[next].0
            &&& model::session_of(n).windows == windows
            &&& n.panes == m.panes
            &&& n.active_session == m.active_session
        }),
{
    soundness::the_active_exist(m);
    let s = model::session_of(m);
    ring(m.sessions, i);
    ring(s.windows, j);
    maps::key_at_index(m.sessions, i);
    let n = model::window_cycled(m, forward);
    maps::key_at_is_first(n.sessions, m.active_session);
    let k = maps::key_at(n.sessions, m.active_session)->0;
    assert(n.sessions[i].0 == m.active_session);
    assert(k == i) by {
        if k < i {
            assert(n.sessions[k] == m.sessions[k]);
            assert(m.sessions[k].0 != m.sessions[i].0);
        }
    }
}

proof fn ring<V>(entries: Seq<(u32, V)>, i: int)
    requires
        maps::distinct_keys(entries),
        0 <= i < entries.len(),
    ensures
        model::place_of(maps::keys_of(entries), entries[i].0) == Some(i),
        maps::keys_of(entries).len() == entries.len(),
        forall|k: int|
            0 <= k < entries.len() ==> #[trigger] maps::keys_of(entries)[k] == entries[k].0,
{
    let ids = maps::keys_of(entries);
    model::place_of_is_first(ids, entries[i].0);
    assert(ids[i] == entries[i].0);
    let at = model::place_of(ids, entries[i].0)->0;
    if at != i {
        assert(ids[at] == entries[at].0);
        assert(entries[at].0 != entries[i].0);
    }
}

/// Choosing a pane makes it the active one of its window, that window the active one
/// of its session, and that session the active one.
pub proof fn choosing_a_pane_shows_it(m: MuxView, p: PaneId)
    requires
        m.wf(),
        soundness::is_shown(m, p),
    ensures
        ({
            let (n, o) = model::pane_focused(m, p);
            &&& active(n) == p
            &&& order(n).contains(p)
            &&& n.panes == m.panes
            &&& o.layout_changed
        }),
{
    let (i0, j0) = choose|i: int, j: int| soundness::shows(m, i, j, p);
    soundness::session_with_is(m.sessions, p);
    match model::session_with(m.sessions, p) {
        None => {
            soundness::window_with_is(m.sessions[i0].1.windows, p);
        },
        Some(i) => {
            let s = m.sessions[i].1;
            soundness::window_with_is(s.windows, p);
            let j = model::window_with(s.windows, p)->0;
            let (n, _) = model::pane_focused(m, p);
            assert(soundness::session_ok(m.sessions[i], m.next_id));
            maps::key_at_is_first(n.sessions, s.id);
            assert(n.sessions[i].0 == s.id);
            let k = maps::key_at(n.sessions, s.id)->0;
            assert(k == i) by {
                if k != i {
                    assert(n.sessions[k] == m.sessions[k]);
                    assert(m.sessions[k].0 == m.sessions[i].0);
                }
            }
            let t = n.sessions[i].1;
            let wid = s.windows[j].0;
            maps::key_at_is_first(t.windows, wid);
            assert(t.windows[j].0 == wid);
            let l = maps::key_at(t.windows, wid)->0;
            assert(l == j) by {
                if l != j {
                    assert(t.windows[l] == s.windows[l]);
                    assert(s.windows[l].0 == s.windows[j].0);
                }
            }
        },
    }
}

/// Dragging a divider gives the child before it the share that was asked for, held
/// between a twentieth and what leaves the other a twentieth; the child behind it
/// takes what is left of the two, and no other changes.
pub proof fn dragging_shares_between_two(
    children: Seq<(Share, LayoutView)>,
    k: int,
    fraction: Share,
    replies: ReplySeq,
)
    requires
        0 <= k,
        k + 1 < children.len(),
        !fraction.nan(),
    ensures
        layout::divider_moved(children, k, fraction, replies) matches Ok(Some(out)) ==> {
            let least = Share { bits: 0x3d4c_cccd };
            let pair = answer(FloatOp::Add, children[k].0, children[k + 1].0, replies)->0;
            let most = answer(FloatOp::Sub, pair, least, replies)->0;
            let taken = out[k].0;
            &&& out.len() == children.len()
            &&& forall|i: int| 0 <= i < out.len() ==> (#[trigger] out[i]).1 == children[i].1
            &&& forall|i: int|
                0 <= i < out.len() && i != k && i != k + 1 ==> #[trigger] out[i] == children[i]
            &&& !taken.below(least) && !most.below(taken)
            &&& !fraction.below(least) && !most.below(fraction) ==> taken == fraction
            &&& fraction.below(least) ==> taken == least
            &&& most.below(fraction) && !fraction.below(least) ==> taken == most
            &&& answer(FloatOp::Sub, pair, taken, replies) == Some(out[k + 1].0)
        },
        layout::divider_moved(children, k, fraction, replies) matches Ok(None) ==> {
            let least = Share { bits: 0x3d4c_cccd };
            let pair = answer(FloatOp::Add, children[k].0, children[k + 1].0, replies)->0;
            let most = answer(FloatOp::Sub, pair, least, replies)->0;
            most.nan() || most.below(least)
        },
{
    asking(replies);
    assert(share::TWENTIETH == 0x3d4c_cccd);
}

/// The place of a part of an extent.
pub open spec fn part(
    start: Share,
    extent: Share,
    offset: Share,
    portion: Share,
    at: Share,
    size: Share,
    replies: ReplySeq,
) -> bool {
    &&& answer(FloatOp::Mul, extent, offset, replies) matches Some(shift)
    &&& answer(FloatOp::Add, start, shift, replies) == Some(at)
    &&& answer(FloatOp::Mul, extent, portion, replies) == Some(size)
}

/// A split lies in its rectangle as its direction says: the children of a row lie
/// beside each other, at the full height; those of a column below each other, at
/// the full width. Each starts where the ones before it end and takes its portion.
pub proof fn children_share_their_rectangle(
    dir: Dir,
    children: Seq<(Share, LayoutView)>,
    rect: Rect,
    replies: ReplySeq,
)
    ensures
        layout::laid_out(LayoutView::Split { dir, children }, rect, replies) matches Ok(rects) ==> (
        exists|subs: Seq<Rect>, offsets: Seq<Share>, portions: Seq<Share>, total: Share|
            {
                &&& #[trigger] shared_out(dir, children, rect, subs, offsets, portions, total, replies)
                &&& rects == placed_in(children, subs, children.len(), replies)
            }),
{
    if let Ok(rects) = layout::laid_out(LayoutView::Split { dir, children }, rect, replies) {
        let total = layout::divisor(children, replies)->Ok_0;
        let (subs, offsets, portions) = sharing(
            dir,
            children,
            children.len(),
            rect,
            total,
            replies,
        );
        assert(shared_out(dir, children, rect, subs, offsets, portions, total, replies));
    }
}

/// The rectangles of the first children, one child after the other.
pub open spec fn placed_in(
    children: Seq<(Share, LayoutView)>,
    subs: Seq<Rect>,
    n: nat,
    replies: ReplySeq,
) -> Seq<Placed>
    decreases n,
{
    if n == 0 {
        Seq::empty()
    } else {
        placed_in(children, subs, (n - 1) as nat, replies) + layout::laid_out(
            children[n - 1].1,
            subs[n - 1],
            replies,
        )->Ok_0
    }
}

/// Each child has its portion, which is its share of the total, behind the portions
/// before it.
pub open spec fn shared_out(
    dir: Dir,
    children: Seq<(Share, LayoutView)>,
    rect: Rect,
    subs: Seq<Rect>,
    offsets: Seq<Share>,
    portions: Seq<Share>,
    total: Share,
    replies: ReplySeq,
) -> bool {
    &&& subs.len() == children.len()
    &&& portions.len() == children.len()
    &&& offsets.len() == children.len() + 1
    &&& offsets[0] == Share { bits: 0 }
    &&& forall|i: int|
        0 <= i < children.len() ==> {
            let sub = #[trigger] subs[i];
            &&& answer(FloatOp::Div, children[i].0, total, replies) == Some(portions[i])
            &&& answer(FloatOp::Add, offsets[i], portions[i], replies) == Some(offsets[i + 1])
            &&& layout::laid_out(children[i].1, sub, replies) is Ok
            &&& dir == Dir::Row ==> {
                &&& sub.y == rect.y && sub.h == rect.h
                &&& part(rect.x, rect.w, offsets[i], portions[i], sub.x, sub.w, replies)
            }
            &&& dir == Dir::Col ==> {
                &&& sub.x == rect.x && sub.w == rect.w
                &&& part(rect.y, rect.h, offsets[i], portions[i], sub.y, sub.h, replies)
            }
        }
}

proof fn sharing(
    dir: Dir,
    children: Seq<(Share, LayoutView)>,
    n: nat,
    rect: Rect,
    total: Share,
    replies: ReplySeq,
) -> (r: (Seq<Rect>, Seq<Share>, Seq<Share>))
    requires
        n <= children.len(),
        layout::laid_upto(children, n, dir, total, rect, replies) is Ok,
    ensures
        shared_out(dir, children.take(n as int), rect, r.0, r.1, r.2, total, replies),
        layout::laid_upto(children, n, dir, total, rect, replies) == Ok::<
            (Seq<Placed>, Share),
            QueryView,
        >((placed_in(children, r.0, n, replies), r.1[n as int])),
        n == children.len() ==> shared_out(dir, children, rect, r.0, r.1, r.2, total, replies),
    decreases n,
{
    asking(replies);
    if n == 0 {
        let r = (Seq::<Rect>::empty(), seq![Share { bits: 0 }], Seq::<Share>::empty());
        assert(share::ZERO == 0);
        if children.len() == 0 {
            assert(children.take(0) =~= children);
        }
        r
    } else {
        let m = (n - 1) as nat;
        let (subs, offsets, portions) = sharing(dir, children, m, rect, total, replies);
        let offset = offsets[m as int];
        let portion = answer(FloatOp::Div, children[m as int].0, total, replies)->0;
        let sub = layout::part_of(rect, dir, offset, portion, replies)->Ok_0;
        let next = answer(FloatOp::Add, offset, portion, replies)->0;
        let r = (subs.push(sub), offsets.push(next), portions.push(portion));
        assert forall|i: int| 0 <= i < n implies {
            let sub = #[trigger] r.0[i];
            &&& answer(FloatOp::Div, children[i].0, total, replies) == Some(r.2[i])
            &&& answer(FloatOp::Add, r.1[i], r.2[i], replies) == Some(r.1[i + 1])
            &&& layout::laid_out(children[i].1, sub, replies) is Ok
            &&& dir == Dir::Row ==> {
                &&& sub.y == rect.y && sub.h == rect.h
                &&& part(rect.x, rect.w, r.1[i], r.2[i], sub.x, sub.w, replies)
            }
            &&& dir == Dir::Col ==> {
                &&& sub.x == rect.x && sub.w == rect.w
                &&& part(rect.y, rect.h, r.1[i], r.2[i], sub.y, sub.h, replies)
            }
        } by {
            if i < m {
                assert(r.0[i] == subs[i]);
                assert(children.take(m as int)[i] == children[i]);
            }
        }
        assert forall|i: int| 0 <= i < n implies (#[trigger] children.take(n as int)[i])
            == children[i] by {}
        same_places(children, subs, r.0, m, replies);
        if n == children.len() {
            assert(children.take(n as int) =~= children);
        }
        r
    }
}

proof fn same_places(
    children: Seq<(Share, LayoutView)>,
    a: Seq<Rect>,
    b: Seq<Rect>,
    n: nat,
    replies: ReplySeq,
)
    requires
        n <= a.len(),
        n <= b.len(),
        forall|i: int| 0 <= i < n ==> a[i] == b[i],
    ensures
        placed_in(children, a, n, replies) == placed_in(children, b, n, replies),
    decreases n,
{
    if n > 0 {
        same_places(children, a, b, (n - 1) as nat, replies);
    }
}

} // verus!
