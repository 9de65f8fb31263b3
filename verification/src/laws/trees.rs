//! What happens to the tree of panes, and to windows and sessions, when panes go.

use crate::ask::{FloatOp, QueryView, ReplySeq};
use crate::laws::panes;
use crate::mux::layout;
use crate::mux::maps;
use crate::mux::model;
use crate::mux::model::{MuxView, WindowView};
use crate::mux::share::Share;
use crate::mux::soundness;
use crate::mux::tree::{Dir, LayoutView, PaneId};
use vstd::prelude::*;

verus! {

/// Numbers summed up one by one, from zero on.
pub open spec fn sums_up(
    children: Seq<(Share, LayoutView)>,
    sums: Seq<Share>,
    replies: ReplySeq,
) -> bool {
    &&& sums.len() == children.len() + 1
    &&& sums[0] == Share { bits: 0 }
    &&& forall|i: int|
        0 <= i < children.len() ==> panes::answer(
            FloatOp::Add,
            #[trigger] sums[i],
            children[i].0,
            replies,
        ) == Some(sums[i + 1])
}

proof fn summing(children: Seq<(Share, LayoutView)>, n: nat, replies: ReplySeq) -> (sums: Seq<
    Share,
>)
    requires
        n <= children.len(),
        layout::share_sum(children, n, replies) is Ok,
    ensures
        sums.len() == n + 1,
        sums[0] == (Share { bits: 0 }),
        layout::share_sum(children, n, replies) == Ok::<Share, QueryView>(sums[n as int]),
        forall|i: int|
            0 <= i < n ==> panes::answer(
                FloatOp::Add,
                #[trigger] sums[i],
                children[i].0,
                replies,
            ) == Some(sums[i + 1]),
    decreases n,
{
    if n == 0 {
        seq![Share { bits: 0 }]
    } else {
        let before = summing(children, (n - 1) as nat, replies);
        let sums = before.push(layout::share_sum(children, n, replies)->Ok_0);
        assert forall|i: int| 0 <= i < n implies panes::answer(
            FloatOp::Add,
            #[trigger] sums[i],
            children[i].0,
            replies,
        ) == Some(sums[i + 1]) by {
            if i < n - 1 {
                assert(sums[i] == before[i]);
            }
        }
        sums
    }
}

/// The shares of the children that are left are made to fill the whole again: each
/// is divided by what they come to together. The children stay as they are.
pub proof fn shares_fill_the_whole_again(children: Seq<(Share, LayoutView)>, replies: ReplySeq)
    ensures
        layout::normalized(children, replies) matches Ok(out) ==> {
            &&& out.len() == children.len()
            &&& exists|sums: Seq<Share>| #[trigger]
                sums_up(children, sums, replies) && forall|i: int|
                    0 <= i < out.len() ==> (#[trigger] out[i]).1 == children[i].1 && panes::answer(
                        FloatOp::Div,
                        children[i].0,
                        sums.last(),
                        replies,
                    ) == Some(out[i].0)
        },
{
    if let Ok(out) = layout::normalized(children, replies) {
        let sums = summing(children, children.len(), replies);
        dividing(children, children.len(), sums.last(), replies);
        assert(sums_up(children, sums, replies));
    }
}

proof fn dividing(children: Seq<(Share, LayoutView)>, n: nat, total: Share, replies: ReplySeq)
    requires
        n <= children.len(),
    ensures
        layout::divided_upto(children, n, total, replies) matches Ok(out) ==> out.len() == n
            && forall|i: int|
            0 <= i < n ==> (#[trigger] out[i]).1 == children[i].1 && panes::answer(
                FloatOp::Div,
                children[i].0,
                total,
                replies,
            ) == Some(out[i].0),
    decreases n,
{
    if n > 0 {
        dividing(children, (n - 1) as nat, total, replies);
    }
}

/// Of two panes beside each other the one that is left takes the place of both; a
/// pane that is alone leaves nothing.
pub proof fn the_other_of_two_takes_the_place(
    dir: Dir,
    a: Share,
    x: PaneId,
    b: Share,
    y: PaneId,
    replies: ReplySeq,
)
    requires
        x != y,
    ensures
        ({
            let v = LayoutView::Split {
                dir,
                children: seq![(a, LayoutView::Leaf(x)), (b, LayoutView::Leaf(y))],
            };
            &&& layout::removed(v, x, replies) == Ok::<Option<LayoutView>, QueryView>(
                Some(LayoutView::Leaf(y)),
            )
            &&& layout::removed(v, y, replies) == Ok::<Option<LayoutView>, QueryView>(
                Some(LayoutView::Leaf(x)),
            )
            &&& layout::removed(LayoutView::Leaf(x), x, replies) == Ok::<
                Option<LayoutView>,
                QueryView,
            >(None)
        }),
{
    reveal_with_fuel(layout::removed, 3);
    reveal_with_fuel(layout::kept_upto, 4);
    let children = seq![(a, LayoutView::Leaf(x)), (b, LayoutView::Leaf(y))];
    assert(children[0] == (a, LayoutView::Leaf(x)));
    assert(children[1] == (b, LayoutView::Leaf(y)));
    let none = Seq::<(Share, LayoutView)>::empty();
    assert(layout::kept_upto(children, 0, x, replies) == Ok::<
        Seq<(Share, LayoutView)>,
        QueryView,
    >(none));
    assert(layout::kept_upto(children, 0, y, replies) == Ok::<
        Seq<(Share, LayoutView)>,
        QueryView,
    >(none));
    assert(layout::kept_upto(children, 1, x, replies) == Ok::<
        Seq<(Share, LayoutView)>,
        QueryView,
    >(none));
    assert(layout::kept_upto(children, 1, y, replies) == Ok::<
        Seq<(Share, LayoutView)>,
        QueryView,
    >(none.push(children[0])));
    assert(layout::kept_upto(children, 2, x, replies) == Ok::<
        Seq<(Share, LayoutView)>,
        QueryView,
    >(none.push(children[1])));
    assert(layout::kept_upto(children, 2, y, replies) == Ok::<
        Seq<(Share, LayoutView)>,
        QueryView,
    >(none.push(children[0])));
}

/// A divider is found by the way to it: each step but the last goes into a child, and
/// nothing beside that way changes.
pub proof fn dividers_are_found_by_their_path(
    dir: Dir,
    children: Seq<(Share, LayoutView)>,
    k: usize,
    path: Seq<usize>,
    fraction: Share,
    replies: ReplySeq,
)
    requires
        path.len() > 0,
        k < children.len(),
    ensures
        ({
            let r = layout::resized(
                LayoutView::Split { dir, children },
                seq![k] + path,
                fraction,
                replies,
            );
            match layout::resized(children[k as int].1, path, fraction, replies) {
                Ok(Some(inner)) => r matches Ok(Some(LayoutView::Split { dir: d, children: out }))
                    && d == dir && out.len() == children.len() && forall|i: int|
                    0 <= i < out.len() ==> #[trigger] out[i] == if i == k {
                        (children[i].0, inner)
                    } else {
                        children[i]
                    },
                Ok(None) => r == Ok::<Option<LayoutView>, QueryView>(None),
                Err(q) => r == Err::<Option<LayoutView>, QueryView>(q),
            }
        }),
{
    let whole = seq![k] + path;
    assert(whole.drop_first() =~= path);
    assert(whole[0] == k);
}

/// Killing the only pane of a window closes the window: the others of its session
/// stay in their order, and the last of them becomes the active one.
pub proof fn killing_the_last_pane_closes_the_window(m: MuxView, j: int, replies: ReplySeq)
    requires
        m.wf(),
        panes::order(m).len() == 1,
        model::session_of(m).windows.len() > 1,
        0 <= j < model::session_of(m).windows.len(),
        model::session_of(m).windows[j].0 == model::session_of(m).active_window,
    ensures
        model::killed(m, replies) matches Ok((n, o)) ==> {
            let windows = model::session_of(m).windows;
            let left = windows.take(j) + windows.skip(j + 1);
            &&& model::session_of(n).windows == left
            &&& model::session_of(n).active_window == left.last().0
            &&& n.active_session == m.active_session
            &&& o.closed_panes == seq![panes::active(m)]
            &&& o.opened_panes.len() == 0
            &&& o.closed_sessions.len() == 0
        },
{
    soundness::the_active_exist(m);
    let s = model::session_of(m);
    let w = model::window_of(m);
    let a = panes::active(m);
    layout::removing_keeps_the_others(w.layout, a, replies);
    assert(panes::order(m)[0] == a) by {
        let k = choose|k: int| 0 <= k < panes::order(m).len() && panes::order(m)[k] == a;
    }
    panes::others_remain(panes::order(m), a, 0);
    maps::key_at_index(s.windows, j);
    if let Ok((n, o)) = model::killed(m, replies) {
        assert(layout::removed(w.layout, a, replies) == Ok::<Option<LayoutView>, QueryView>(None));
        let rest = MuxView { panes: maps::taken(m.panes, a), ..m };
        let left = maps::taken(s.windows, s.active_window);
        assert(left =~= s.windows.take(j) + s.windows.skip(j + 1));
        assert(model::session_of(rest) == s);
        let i = maps::key_at(m.sessions, m.active_session)->0;
        maps::key_at_is_first(m.sessions, m.active_session);
        maps::key_at_is_first(n.sessions, m.active_session);
        assert(n.sessions[i].0 == m.active_session);
        let k = maps::key_at(n.sessions, m.active_session)->0;
        assert(k == i) by {
            if k < i {
                assert(n.sessions[k] == m.sessions[k]);
            }
        }
    }
}

/// Killing the only pane of the only window of a session closes the session: the
/// others stay in their order, and the last of them becomes the active one.
pub proof fn killing_the_last_window_closes_the_session(m: MuxView, i: int, replies: ReplySeq)
    requires
        m.wf(),
        panes::order(m).len() == 1,
        model::session_of(m).windows.len() == 1,
        m.sessions.len() > 1,
        0 <= i < m.sessions.len(),
        m.sessions[i].0 == m.active_session,
    ensures
        model::killed(m, replies) matches Ok((n, o)) ==> {
            let left = m.sessions.take(i) + m.sessions.skip(i + 1);
            &&& n.sessions == left
            &&& n.active_session == left.last().0
            &&& o.closed_panes == seq![panes::active(m)]
            &&& o.closed_sessions == seq![m.active_session]
            &&& o.opened_panes.len() == 0
        },
{
    soundness::the_active_exist(m);
    let s = model::session_of(m);
    let w = model::window_of(m);
    let a = panes::active(m);
    layout::removing_keeps_the_others(w.layout, a, replies);
    assert(panes::order(m)[0] == a) by {
        let k = choose|k: int| 0 <= k < panes::order(m).len() && panes::order(m)[k] == a;
    }
    panes::others_remain(panes::order(m), a, 0);
    maps::key_at_index(m.sessions, i);
    if let Ok((n, o)) = model::killed(m, replies) {
        assert(layout::removed(w.layout, a, replies) == Ok::<Option<LayoutView>, QueryView>(None));
        let rest = MuxView { panes: maps::taken(m.panes, a), ..m };
        assert(model::session_of(rest) == s);
        let left = maps::taken(s.windows, s.active_window);
        assert(left.len() == 0);
        assert(maps::taken(m.sessions, m.active_session) =~= m.sessions.take(i) + m.sessions.skip(
            i + 1,
        ));
    }
}

/// Killing the last pane of all leaves a fresh session called "main", with a fresh
/// pane of its own.
pub proof fn a_fresh_session_follows_the_last_pane(m: MuxView, replies: ReplySeq)
    requires
        m.wf(),
        m.next_id <= u32::MAX - 3,
        panes::order(m).len() == 1,
        model::session_of(m).windows.len() == 1,
        m.sessions.len() == 1,
    ensures
        model::killed(m, replies) matches Ok((n, o)) ==> {
            &&& n.sessions.len() == 1
            &&& n.sessions[0].0 == n.active_session
            &&& n.sessions[0].1.name == "main"@
            &&& n.sessions[0].1.windows.len() == 1
            &&& o.closed_panes == seq![panes::active(m)]
            &&& o.closed_sessions == seq![m.active_session]
            &&& o.opened_panes == seq![panes::active(n)]
            &&& panes::order(n) == seq![panes::active(n)]
            &&& panes::active(n) != panes::active(m)
        },
{
    soundness::the_active_exist(m);
    let s = model::session_of(m);
    let w = model::window_of(m);
    let a = panes::active(m);
    layout::removing_keeps_the_others(w.layout, a, replies);
    assert(panes::order(m)[0] == a) by {
        let k = choose|k: int| 0 <= k < panes::order(m).len() && panes::order(m)[k] == a;
    }
    panes::others_remain(panes::order(m), a, 0);
    maps::key_at_is_first(m.sessions, m.active_session);
    let i = maps::key_at(m.sessions, m.active_session)->0;
    let j = maps::key_at(s.windows, s.active_window)->0;
    assert(soundness::shows(m, i, j, a));
    maps::key_at_is_first(m.panes, a);
    if let Ok((n, o)) = model::killed(m, replies) {
        assert(layout::removed(w.layout, a, replies) == Ok::<Option<LayoutView>, QueryView>(None));
        let rest = MuxView { panes: maps::taken(m.panes, a), ..m };
        assert(model::session_of(rest) == s);
        let none = maps::taken(m.sessions, m.active_session);
        assert(none =~= Seq::empty());
        let wid = (m.next_id + 1) as u32;
        let sid = (m.next_id + 2) as u32;
        maps::key_at_is_first(none, sid);
        let fresh = model::fresh_session(sid, "main"@, wid, m.next_id);
        assert(n.sessions =~= seq![(sid, fresh)]);
        maps::key_at_is_first(n.sessions, sid);
        assert(n.sessions[0].0 == sid);
        let empty = Seq::<(u32, WindowView)>::empty();
        maps::key_at_is_first(empty, wid);
        assert(fresh.windows =~= seq![(wid, model::fresh_window(wid, "main"@, m.next_id))]);
        maps::key_at_is_first(fresh.windows, wid);
        assert(fresh.windows[0].0 == wid);
        assert(layout::leaves_of(LayoutView::Leaf(m.next_id)) =~= seq![m.next_id]);
        let k = maps::key_at(m.panes, a)->0;
        assert(m.panes[k].0 < m.next_id);
    }
}

} // verus!
