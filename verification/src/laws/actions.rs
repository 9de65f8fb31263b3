//! What the commands, keys and pictures of the multiplexer have to do with the panes
//! on the screen.

use crate::ask::{QueryView, ReplySeq, ReplyView, StopView, Ticket};
use crate::ask;
use crate::builtins;
use crate::builtins::collect;
use crate::builtins::Builtin;
use crate::engine;
use crate::engine::AppliedView;
use crate::laws::commands;
use crate::laws::panes;
use crate::mux;
use crate::mux::keys;
use crate::mux::layout;
use crate::mux::layout::Rect;
use crate::mux::maps;
use crate::mux::model;
use crate::mux::model::{MuxView, SessionView, WindowView};
use crate::mux::share::Share;
use crate::mux::soundness;
use crate::mux::tree::{Dir, LayoutView};
use crate::mux::FocusDir;
use crate::registry;
use crate::registry::{Command, DataView, MuxActionView};
use crate::signature::BoundCallView;
use crate::value;
use crate::value::ValueView;
use vstd::prelude::*;

verus! {

/// What the command of a name asks of the multiplexer.
pub open spec fn asks(name: Seq<char>, call: BoundCallView) -> Option<MuxActionView> {
    let entries = builtins::builtin_entries();
    match registry::named(entries, name) {
        Some(k) => match entries[k].command {
            Command::Builtin(which) => collect::action_of(which, call),
            _ => None,
        },
        None => None,
    }
}

proof fn asking(which: Builtin, call: BoundCallView)
    ensures
        asks(builtins::name_of(which), call) == collect::action_of(which, call),
{
    builtins::every_builtin_is_found(which);
}

/// What the multiplexer is after a command, where it does what it was asked.
pub open spec fn after(name: Seq<char>, call: BoundCallView, m: MuxView, replies: ReplySeq) -> Option<
    AppliedView,
> {
    match asks(name, call) {
        Some(action) => match engine::mux_applied(m, action, replies) {
            Ok(done) => Some(done),
            Err(_) => None,
        },
        None => None,
    }
}

/// A command asks for its action, and hands on what comes of it.
pub proof fn commands_hand_on_what_comes(
    call: BoundCallView,
    input: DataView,
    v: ValueView,
    width: u16,
    step: u64,
    replies: ReplySeq,
)
    requires
        ask::reply_to(
            replies,
            QueryView::Mux(Ticket { step, nth: 0 }, MuxActionView::SessionList),
        ) == Some(ReplyView::Value(v)),
    ensures
        commands::gives("session list"@, call, input, width, step, replies) == Ok::<
            DataView,
            StopView,
        >(
            if v is Null {
                DataView::Empty
            } else {
                DataView::Value(v)
            },
        ),
{
    commands::found(Builtin::SessionList, call, input, width, step, replies);
    reveal(collect::ran);
}

/// `mux focus` with the name of a direction moves the focus that way; with another
/// word it changes nothing and says so.
pub proof fn focus_commands_go_their_way(
    call: BoundCallView,
    word: Seq<char>,
    m: MuxView,
    replies: ReplySeq,
)
    requires
        call.positionals == seq![ValueView::Str(word)],
    ensures
        ({
            let dir = if word == "left"@ {
                Some(FocusDir::Left)
            } else if word == "right"@ {
                Some(FocusDir::Right)
            } else if word == "up"@ {
                Some(FocusDir::Up)
            } else if word == "down"@ {
                Some(FocusDir::Down)
            } else if word == "next"@ {
                Some(FocusDir::Next)
            } else {
                None
            };
            match dir {
                Some(d) => match model::focus_moved(m, d, replies) {
                    Ok((n, o)) => after("mux focus"@, call, m, replies) matches Some(done)
                        && done.mux == n && done.outcome == o && done.value is Ok,
                    Err(_) => after("mux focus"@, call, m, replies) is None,
                },
                None => after("mux focus"@, call, m, replies) matches Some(done) && done.mux == m
                    && done.value is Err,
            }
        }),
{
    asking(Builtin::MuxFocus, call);
    assert(call.positionals[0] == ValueView::Str(word));
    reveal_strlit("left");
    reveal_strlit("right");
    reveal_strlit("up");
    reveal_strlit("down");
    reveal_strlit("next");
    assert("left"@[0] == 'l' && "right"@[0] == 'r' && "up"@[0] == 'u' && "down"@[0] == 'd'
        && "next"@[0] == 'n');
}

/// Does a call set a flag?
pub open spec fn flagged(call: BoundCallView, name: Seq<char>) -> bool {
    value::lookup(call.flags, name) == Some(ValueView::Bool(true))
}

/// `mux split` in a window of one pane puts the new pane to the right of it, at the
/// same height; with `--down` below it, at the same width. In either case the old
/// pane keeps the corner of the window, and both take half.
pub proof fn split_commands_put_the_pane_beside(
    call: BoundCallView,
    m: MuxView,
    rect: Rect,
    replies: ReplySeq,
)
    requires
        m.wf(),
        m.next_id < u32::MAX,
        model::window_of(m).layout == LayoutView::Leaf(panes::active(m)),
    ensures
        ({
            let done = after("mux split"@, call, m, replies);
            let old_pane = panes::active(m);
            &&& done is Some
            &&& panes::active(done->0.mux) == m.next_id
            &&& done->0.outcome.opened_panes == seq![m.next_id]
            &&& layout::laid_out(
                model::window_of(done->0.mux).layout,
                rect,
                replies,
            ) matches Ok(rects) ==> {
                &&& rects.len() == 2
                &&& rects[0].0 == old_pane
                &&& rects[1].0 == m.next_id
                &&& exists|offset: Share, portion: Share, total: Share| #[trigger]
                    beside(
                        rect,
                        rects[0].1,
                        rects[1].1,
                        flagged(call, "down"@),
                        offset,
                        portion,
                        total,
                        replies,
                    )
            }
        }),
{
    asking(Builtin::MuxSplit, call);
    let dir = if flagged(call, "down"@) {
        Dir::Col
    } else {
        Dir::Row
    };
    soundness::the_active_exist(m);
    let w = model::window_of(m);
    let a = panes::active(m);
    assert(layout::leaves_of(w.layout) =~= seq![a]);
    assert(panes::order(m)[0] == a);
    panes::splitting_opens_a_pane_beside(m, dir, 0);
    let n = model::split_done(m, dir);
    panes::replacing(
        m,
        maps::put(m.panes, m.next_id, model::fresh_pane()),
        (m.next_id + 1) as u32,
        WindowView {
            layout: layout::split_view(w.layout, w.active_pane, dir, m.next_id),
            active_pane: m.next_id,
            zoomed: None,
            ..w
        },
    );
    let done = after("mux split"@, call, m, replies);
    assert(done is Some && done->0.mux == n);
    assert(done->0.outcome.opened_panes == seq![m.next_id]);
    let v = model::window_of(n).layout;
    assert(v == layout::halves(a, dir, m.next_id));
    let children = v->children;
    panes::children_share_their_rectangle(dir, children, rect, replies);
    if let Ok(rects) = layout::laid_out(v, rect, replies) {
        let (subs, offsets, portions, total) = choose|
            subs: Seq<Rect>,
            offsets: Seq<Share>,
            portions: Seq<Share>,
            total: Share,
        |
            {
                &&& #[trigger] panes::shared_out(
                    dir,
                    children,
                    rect,
                    subs,
                    offsets,
                    portions,
                    total,
                    replies,
                )
                &&& rects == panes::placed_in(children, subs, children.len(), replies)
            };
        reveal_with_fuel(panes::placed_in, 3);
        assert(subs[0] == subs[0] && subs[1] == subs[1]);
        assert(layout::laid_out(children[0].1, subs[0], replies)->Ok_0 =~= seq![(a, subs[0])]);
        assert(layout::laid_out(children[1].1, subs[1], replies)->Ok_0 =~= seq![
            (m.next_id, subs[1]),
        ]);
        assert(rects =~= seq![(a, subs[0]), (m.next_id, subs[1])]);
        assert(rects[0].1 == subs[0] && rects[1].1 == subs[1]);
        assert(beside(
            rect,
            rects[0].1,
            rects[1].1,
            flagged(call, "down"@),
            offsets[1],
            portions[0],
            total,
            replies,
        ));
    }
}

/// Two rectangles share one: the first starts where it does, the second behind the
/// portion of the first; both have the same portion, a half of the total.
pub open spec fn beside(
    rect: Rect,
    first: Rect,
    second: Rect,
    down: bool,
    offset: Share,
    portion: Share,
    total: Share,
    replies: ReplySeq,
) -> bool {
    let zero = Share { bits: 0 };
    let half = Share { bits: 0x3f00_0000 };
    &&& panes::answer(crate::ask::FloatOp::Div, half, total, replies) == Some(portion)
    &&& panes::answer(crate::ask::FloatOp::Add, zero, portion, replies) == Some(offset)
    &&& if down {
        &&& first.x == rect.x && second.x == rect.x && first.w == rect.w && second.w == rect.w
        &&& panes::part(rect.y, rect.h, zero, portion, first.y, first.h, replies)
        &&& panes::part(rect.y, rect.h, offset, portion, second.y, second.h, replies)
    } else {
        &&& first.y == rect.y && second.y == rect.y && first.h == rect.h && second.h == rect.h
        &&& panes::part(rect.x, rect.w, zero, portion, first.x, first.w, replies)
        &&& panes::part(rect.x, rect.w, offset, portion, second.x, second.w, replies)
    }
}

/// The other commands do what their names say: a new window, the next one and the one
/// before, the pane killed, zoomed or hidden, and the same of sessions.
pub proof fn commands_do_what_they_say(call: BoundCallView, m: MuxView, replies: ReplySeq)
    ensures
        after("mux window new"@, call, m, replies) matches Some(done) && done.mux
            == model::window_added(m),
        after("mux window next"@, call, m, replies) matches Some(done) && done.mux
            == model::window_cycled(m, true),
        after("mux window prev"@, call, m, replies) matches Some(done) && done.mux
            == model::window_cycled(m, false),
        after("mux zoom"@, call, m, replies) matches Some(done) && done.mux
            == model::zoom_toggled(m),
        after("mux hide"@, call, m, replies) matches Some(done) && done.mux == m,
        after("mux kill-pane"@, call, m, replies) matches Some(done) ==> Ok::<MuxView, QueryView>(
            done.mux,
        ) == match model::killed(m, replies) {
            Ok((n, _)) => Ok(n),
            Err(q) => Err(q),
        },
        after("session next"@, call, m, replies) matches Some(done) && done.mux
            == model::session_cycled(m, true),
        after("session prev"@, call, m, replies) matches Some(done) && done.mux
            == model::session_cycled(m, false),
        after("session list"@, call, m, replies) matches Some(done) && done.mux == m,
{
    asking(Builtin::MuxWindowNew, call);
    asking(Builtin::MuxWindowNext, call);
    asking(Builtin::MuxWindowPrev, call);
    asking(Builtin::MuxZoom, call);
    asking(Builtin::MuxHide, call);
    asking(Builtin::MuxKillPane, call);
    asking(Builtin::SessionNext, call);
    asking(Builtin::SessionPrev, call);
    asking(Builtin::SessionList, call);
}

/// `session list` gives a row for each session, in their order: its name, how many
/// windows it has, and whether it is the active one.
pub proof fn session_list_tells_of_each(call: BoundCallView, m: MuxView, replies: ReplySeq)
    requires
        m.wf(),
        forall|i: int|
            0 <= i < m.sessions.len() ==> (#[trigger] m.sessions[i]).1.windows.len() <= i64::MAX,
    ensures
        after("session list"@, call, m, replies) matches Some(done) && done.value matches Ok(
            ValueView::List(rows),
        ) && rows.len() == m.sessions.len() && forall|i: int|
            0 <= i < rows.len() ==> row_tells(#[trigger] rows[i], m.sessions[i].1, m.active_session
                == m.sessions[i].0),
{
    asking(Builtin::SessionList, call);
    let rows = engine::session_rows(m);
    assert forall|i: int| 0 <= i < rows.len() implies row_tells(
        #[trigger] rows[i],
        m.sessions[i].1,
        m.active_session == m.sessions[i].0,
    ) by {
        assert(soundness::session_ok(m.sessions[i], m.next_id));
        let fields = rows[i]->Record_0;
        assert(fields[0].0 == "name"@ && fields[1].0 == "windows"@ && fields[2].0 == "active"@);
        assert(m.sessions[i].1.windows.len() <= i64::MAX);
    }
}

pub open spec fn row_tells(row: ValueView, s: SessionView, active: bool) -> bool {
    &&& row matches ValueView::Record(fields)
    &&& fields.len() == 3
    &&& fields[0] == ("name"@, ValueView::Str(s.name))
    &&& fields[1].0 == "windows"@
    &&& fields[1].1 matches ValueView::Int(n)
    &&& n == s.windows.len()
    &&& fields[2] == ("active"@, ValueView::Bool(active))
}

/// `session switch` makes a session of the name the active one, the first of several,
/// and refuses a name that no session has. Nothing else changes.
pub proof fn switching_goes_by_name(
    call: BoundCallView,
    name: Seq<char>,
    m: MuxView,
    replies: ReplySeq,
)
    requires
        m.wf(),
        call.positionals == seq![ValueView::Str(name)],
    ensures
        after("session switch"@, call, m, replies) matches Some(done) && {
            &&& done.mux.sessions == m.sessions && done.mux.panes == m.panes
            &&& done.value is Ok ==> exists|i: int|
                0 <= i < m.sessions.len() && (#[trigger] m.sessions[i]).0
                    == done.mux.active_session && m.sessions[i].1.name == name && forall|j: int|
                    0 <= j < i ==> (#[trigger] m.sessions[j]).1.name != name
            &&& done.value is Err <==> forall|i: int|
                0 <= i < m.sessions.len() ==> (#[trigger] m.sessions[i]).1.name != name
            &&& done.value is Err ==> done.mux == m
        },
{
    asking(Builtin::SessionSwitch, call);
    assert(call.positionals[0] == ValueView::Str(name));
    first_of_a_name(m.sessions, name);
    if let Some(i) = model::session_named(m.sessions, name) {
        assert(soundness::session_ok(m.sessions[i], m.next_id));
        assert(m.sessions[i].0 == m.sessions[i].1.id);
    }
}

proof fn first_of_a_name(sessions: Seq<(u32, SessionView)>, name: Seq<char>)
    ensures
        match model::session_named(sessions, name) {
            Some(i) => 0 <= i < sessions.len() && sessions[i].1.name == name && forall|j: int|
                0 <= j < i ==> (#[trigger] sessions[j]).1.name != name,
            None => forall|j: int|
                0 <= j < sessions.len() ==> (#[trigger] sessions[j]).1.name != name,
        },
    decreases sessions.len(),
{
    if sessions.len() > 0 {
        let init = sessions.drop_last();
        first_of_a_name(init, name);
        assert forall|j: int| 0 <= j < init.len() implies init[j] == sessions[j] by {}
        if model::session_named(init, name) is None {
            assert forall|j: int| 0 <= j < init.len() implies (#[trigger] sessions[j]).1.name
                != name by {
                assert(init[j] == sessions[j]);
            }
        } else {
            let i = model::session_named(init, name)->0;
            assert forall|j: int| 0 <= j < i implies (#[trigger] sessions[j]).1.name != name by {
                assert(init[j] == sessions[j]);
            }
        }
    }
}

/// `session new` opens a session of one window with one pane, makes it the active one,
/// and leaves the others as they are. It has the name that was given.
pub proof fn new_sessions_have_one_pane(
    call: BoundCallView,
    name: Seq<char>,
    m: MuxView,
    replies: ReplySeq,
)
    requires
        m.wf(),
        m.next_id <= u32::MAX - 3,
        call.positionals == seq![ValueView::Str(name)],
    ensures
        after("session new"@, call, m, replies) matches Some(done) && {
            let n = done.mux;
            &&& panes::order(n) == seq![panes::active(n)]
            &&& !soundness::has_pane(m, panes::active(n))
            &&& soundness::has_pane(n, panes::active(n))
            &&& model::session_of(n).name == name
            &&& model::session_of(n).windows.len() == 1
            &&& model::session_of(n).vars.len() == 0
            &&& n.sessions.len() == m.sessions.len() + 1
            &&& n.sessions.drop_last() == m.sessions
            &&& n.sessions.last().0 == n.active_session
            &&& done.outcome.opened_panes == seq![panes::active(n)]
        },
{
    asking(Builtin::SessionNew, call);
    assert(call.positionals[0] == ValueView::Str(name));
    let n = model::session_opened(m, Some(name));
    let id = (m.next_id + 2) as u32;
    let wid = (m.next_id + 1) as u32;
    maps::key_at_is_first(m.sessions, id);
    if let Some(i) = maps::key_at(m.sessions, id) {
        assert(soundness::session_ok(m.sessions[i], m.next_id));
    }
    maps::key_at_is_first(m.panes, m.next_id);
    if let Some(k) = maps::key_at(m.panes, m.next_id) {
        assert(m.panes[k].0 < m.next_id);
    }
    assert(n.sessions.drop_last() =~= m.sessions);
    maps::key_at_is_first(n.sessions, id);
    assert(n.sessions[m.sessions.len() as int].0 == id);
    let at = maps::key_at(n.sessions, id)->0;
    assert(at == m.sessions.len()) by {
        if at < m.sessions.len() {
            assert(n.sessions[at] == m.sessions[at]);
            assert(soundness::session_ok(m.sessions[at], m.next_id));
        }
    }
    let s = n.sessions[at].1;
    let none = Seq::<(u32, WindowView)>::empty();
    maps::key_at_is_first(none, wid);
    assert(s.windows.len() == 1);
    assert(s.windows[0].0 == wid);
    maps::key_at_is_first(s.windows, wid);
    assert(layout::leaves_of(LayoutView::Leaf(m.next_id)) =~= seq![m.next_id]);
    maps::key_at_is_first(n.panes, m.next_id);
    assert(n.panes[m.panes.len() as int].0 == m.next_id);
}

/// A picture shows the panes of the active window where the layout puts them, or the
/// zoomed one alone over all of it; it names the active pane, and lists the sessions
/// and the windows in their order, with the active one of each marked.
pub proof fn pictures_show_the_window(m: MuxView, replies: ReplySeq)
    requires
        m.wf(),
    ensures
        engine::pictured(m, replies) matches Ok(p) ==> {
            let w = model::window_of(m);
            &&& p.active_pane == w.active_pane
            &&& p.zoomed == w.zoomed
            &&& w.zoomed matches Some(z) ==> p.panes.len() == 1 && p.panes[0].pane == z
                && p.panes[0].rect == Rect::whole()
            &&& w.zoomed is None ==> (layout::laid_out(w.layout, Rect::whole(), replies) matches Ok(
                rects,
            ) && p.panes.len() == rects.len() && forall|i: int|
                0 <= i < rects.len() ==> (#[trigger] p.panes[i]).pane == rects[i].0
                    && p.panes[i].rect == rects[i].1)
            &&& forall|i: int|
                0 <= i < p.panes.len() ==> ((#[trigger] p.panes[i]).active <==> p.panes[i].pane
                    == w.active_pane)
            &&& p.sessions.len() == m.sessions.len()
            &&& forall|i: int|
                0 <= i < m.sessions.len() ==> (#[trigger] p.sessions[i]).id == m.sessions[i].0
                    && p.sessions[i].name == m.sessions[i].1.name && p.sessions[i].active == (
                m.sessions[i].0 == m.active_session)
            &&& p.windows.len() == model::session_of(m).windows.len()
            &&& forall|j: int|
                0 <= j < p.windows.len() ==> {
                    let own = model::session_of(m).windows[j];
                    &&& (#[trigger] p.windows[j]).id == own.0
                    &&& p.windows[j].name == own.1.name
                    &&& p.windows[j].active == (own.0 == model::session_of(m).active_window)
                }
        },
{
    soundness::the_active_exist(m);
    if let Ok(p) = engine::pictured(m, replies) {
        let s = model::session_of(m);
        assert forall|i: int| 0 <= i < m.sessions.len() implies (#[trigger] p.sessions[i]).id
            == m.sessions[i].0 && p.sessions[i].name == m.sessions[i].1.name
            && p.sessions[i].active == (m.sessions[i].0 == m.active_session) by {
            assert(soundness::session_ok(m.sessions[i], m.next_id));
        }
        assert forall|j: int| 0 <= j < p.windows.len() implies {
            let own = s.windows[j];
            &&& (#[trigger] p.windows[j]).id == own.0
            &&& p.windows[j].name == own.1.name
            &&& p.windows[j].active == (own.0 == s.active_window)
        } by {
            assert(soundness::window_ok(s.windows[j], m.next_id));
        }
    }
}

/// The arrow keys stand for the focus commands of their directions, and the other
/// keys for what they are drawn like or begin with.
pub proof fn keys_stand_for_their_commands()
    ensures
        keys::bound_to("ArrowLeft"@) == Some("mux focus left"@),
        keys::bound_to("ArrowRight"@) == Some("mux focus right"@),
        keys::bound_to("ArrowUp"@) == Some("mux focus up"@),
        keys::bound_to("ArrowDown"@) == Some("mux focus down"@),
        keys::bound_to("o"@) == Some("mux focus next"@),
        keys::bound_to("%"@) == Some("mux split --right"@),
        keys::bound_to("\""@) == Some("mux split --down"@),
        keys::bound_to("c"@) == Some("mux window new"@),
        keys::bound_to("n"@) == Some("mux window next"@),
        keys::bound_to("p"@) == Some("mux window prev"@),
        keys::bound_to("x"@) == Some("mux kill-pane"@),
        keys::bound_to("z"@) == Some("mux zoom"@),
        keys::bound_to("("@) == Some("session prev"@),
        keys::bound_to(")"@) == Some("session next"@),
        keys::bound_to("s"@) == Some("session list"@),
        keys::bound_to("d"@) == Some("mux hide"@),
{
    reveal_strlit("ArrowLeft");
    reveal_strlit("ArrowRight");
    reveal_strlit("ArrowUp");
    reveal_strlit("ArrowDown");
    reveal_strlit("o");
    reveal_strlit("%");
    reveal_strlit("\"");
    reveal_strlit("c");
    reveal_strlit("n");
    reveal_strlit("p");
    reveal_strlit("x");
    reveal_strlit("z");
    reveal_strlit("(");
    reveal_strlit(")");
    reveal_strlit("s");
    reveal_strlit("d");
    assert("ArrowLeft"@[5] == 'L' && "ArrowRight"@[5] == 'R' && "ArrowUp"@[5] == 'U'
        && "ArrowDown"@[5] == 'D');
    assert("o"@[0] == 'o' && "%"@[0] == '%' && "\""@[0] == '"' && "c"@[0] == 'c' && "n"@[0] == 'n'
        && "p"@[0] == 'p' && "x"@[0] == 'x' && "z"@[0] == 'z' && "("@[0] == '(' && ")"@[0] == ')'
        && "s"@[0] == 's' && "d"@[0] == 'd');
}

} // verus!
