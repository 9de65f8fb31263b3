//! What a line that was run leaves behind, what a pane knows, and what the host is
//! told of its own calls.

use crate::editor;
use crate::engine;
use crate::engine::EngineView;
use crate::error;
use crate::error::ErrorView;
use crate::execute;
use crate::host;
use crate::host::{VarOptions, VarTarget};
use crate::mux::maps;
use crate::mux::model;
use crate::mux::model::MuxView;
use crate::mux::soundness;
use crate::protocol::EventView;
use crate::registry::DataView;
use crate::sink;
use crate::sink::{Channel, RecordView};
use crate::tasks;
use crate::tasks::Task;
use crate::text;
use crate::value;
use crate::value::ValueView;
use vstd::prelude::*;

verus! {

/// A run that failed gives its error and no value; any other gives the value of its
/// last pipeline, or null where it had none.
pub proof fn runs_give_the_last_value(results: Seq<DataView>, last: ValueView, e: ErrorView)
    ensures
        execute::run_value(results, Some(e)) == Err::<ValueView, ErrorView>(e),
        execute::run_value(results.push(DataView::Value(last)), None) == Ok::<ValueView, ErrorView>(
            last,
        ),
        execute::run_value(Seq::empty(), None) == Ok::<ValueView, ErrorView>(ValueView::Null),
{
}

/// A pane's output as the host is told of it.
pub open spec fn shown(pane: u32, t: Seq<char>) -> EventView {
    EventView::PaneOutput { pane, data: seq!['\x1b', '[', '0', 'm'] + engine::crlf_from(t, 0) }
}

pub open spec fn all_shown(pane: u32, texts: Seq<Seq<char>>) -> Seq<EventView> {
    Seq::new(texts.len(), |k: int| shown(pane, texts[k]))
}

pub open spec fn none_empty(texts: Seq<Seq<char>>) -> bool {
    forall|k: int| 0 <= k < texts.len() ==> (#[trigger] texts[k]).len() > 0
}

proof fn texts_are_shown(pane: u32, texts: Seq<Seq<char>>)
    requires
        none_empty(texts),
    ensures
        execute::chunks(pane, texts) == all_shown(pane, texts),
    decreases texts.len(),
{
    reveal_strlit("\x1b[0m");
    assert("\x1b[0m"@ =~= seq!['\x1b', '[', '0', 'm']);
    if texts.len() > 0 {
        let init = texts.drop_last();
        assert(none_empty(init)) by {
            assert forall|k: int| 0 <= k < init.len() implies (#[trigger] init[k]).len() > 0 by {
                assert(init[k] == texts[k]);
            }
        }
        texts_are_shown(pane, init);
        assert(texts.last() == texts[texts.len() - 1]);
        assert(all_shown(pane, texts) =~= all_shown(pane, init).push(shown(pane, texts.last())));
    } else {
        assert(all_shown(pane, texts) =~= Seq::empty());
    }
}

/// Is the pane at rest, with nothing else of it or of the others changed but the
/// status of its last line?
pub open spec fn at_rest(before: MuxView, after: MuxView, k: int, ok: bool) -> bool {
    &&& after.panes.len() == before.panes.len()
    &&& forall|j: int|
        0 <= j < before.panes.len() && j != k ==> #[trigger] after.panes[j] == before.panes[j]
    &&& after.panes[k].0 == before.panes[k].0
    &&& !after.panes[k].1.running
    &&& after.panes[k].1.cols == before.panes[k].1.cols
    &&& after.panes[k].1.editor.history == before.panes[k].1.editor.history
    &&& after.panes[k].1.editor.buffer == before.panes[k].1.editor.buffer
    &&& after.panes[k].1.editor.last_ok == ok
    &&& after.sessions == before.sessions
    &&& after.active_session == before.active_session
}

/// What a line printed shows in the order in which it was printed, then the error that
/// it ended with, marked in the line, and then the prompt, as the pane draws it now.
/// The pane is at rest, and its status says whether there was no error.
pub proof fn lines_end_with_the_prompt(
    e: EngineView,
    k: int,
    line: Seq<char>,
    texts: Seq<Seq<char>>,
    failure: Option<ErrorView>,
)
    requires
        maps::distinct_keys(e.mux.panes),
        0 <= k < e.mux.panes.len(),
        none_empty(texts),
        failure matches Some(f) ==> error::rendered(f, line).len() > 0,
    ensures
        ({
            let pane = e.mux.panes[k].0;
            let after = execute::settled(e, pane, line, texts, failure);
            let prompt = editor::redrawn(after.mux.panes[k].1.editor);
            let told = match failure {
                Some(f) => texts.push(error::rendered(f, line)),
                None => texts,
            };
            &&& at_rest(e.mux, after.mux, k, failure is None)
            &&& prompt.len() > 0 ==> after.events == e.events + all_shown(pane, told.push(prompt))
        }),
{
    let pane = e.mux.panes[k].0;
    maps::key_at_index(e.mux.panes, k);
    let after = execute::settled(e, pane, line, texts, failure);
    let told = match failure {
        Some(f) => texts.push(error::rendered(f, line)),
        None => texts,
    };
    texts_are_shown(pane, texts);
    if let Some(f) = failure {
        let err = error::rendered(f, line);
        pushed_one(pane, texts, err);
    }
    let printed = e.emitting(execute::chunks(pane, texts));
    let whole = match failure {
        Some(f) => printed.emitting(engine::output_events(pane, error::rendered(f, line))),
        None => printed,
    };
    assert(whole.mux == e.mux);
    ended_is(whole, k, failure is None);
    let prompt = editor::redrawn(after.mux.panes[k].1.editor);
    if prompt.len() > 0 {
        pushed_one(pane, told, prompt);
        assert(whole.events =~= e.events + all_shown(pane, told));
        assert(after.events =~= e.events + all_shown(pane, told.push(prompt)));
    }
}

proof fn pushed_one(pane: u32, texts: Seq<Seq<char>>, t: Seq<char>)
    requires
        t.len() > 0,
    ensures
        all_shown(pane, texts.push(t)) == all_shown(pane, texts) + engine::output_events(pane, t),
{
    reveal_strlit("\x1b[0m");
    assert("\x1b[0m"@ =~= seq!['\x1b', '[', '0', 'm']);
    assert(all_shown(pane, texts.push(t)) =~= all_shown(pane, texts) + seq![shown(pane, t)]);
}

proof fn ended_is(e: EngineView, k: int, ok: bool)
    requires
        maps::distinct_keys(e.mux.panes),
        0 <= k < e.mux.panes.len(),
    ensures
        ({
            let pane = e.mux.panes[k].0;
            let after = execute::ended(e, pane, ok);
            &&& at_rest(e.mux, after.mux, k, ok)
            &&& after.events == e.events + engine::output_events(
                pane,
                editor::redrawn(after.mux.panes[k].1.editor),
            )
        }),
{
    let pane = e.mux.panes[k].0;
    maps::key_at_index(e.mux.panes, k);
    let rested = execute::idle(e, pane, ok);
    assert(rested.mux.panes.len() == e.mux.panes.len());
    assert(maps::distinct_keys(rested.mux.panes)) by {
        assert forall|i: int, j: int| 0 <= i < j < rested.mux.panes.len() implies (
        #[trigger] rested.mux.panes[i]).0 != (#[trigger] rested.mux.panes[j]).0 by {
            assert(e.mux.panes[i].0 != e.mux.panes[j].0);
        }
    }
    maps::key_at_index(rested.mux.panes, k);
}

/// A line that cannot be read shows its errors, each marked in the line, in the order
/// in which they come, and then the prompt, with the status of a failure.
pub proof fn unread_lines_show_their_errors(
    e: EngineView,
    k: int,
    line: Seq<char>,
    errors: Seq<ErrorView>,
)
    requires
        maps::distinct_keys(e.mux.panes),
        0 <= k < e.mux.panes.len(),
        forall|j: int|
            0 <= j < errors.len() ==> error::rendered(#[trigger] errors[j], line).len() > 0,
    ensures
        ({
            let pane = e.mux.panes[k].0;
            let after = execute::misparsed(e, pane, line, errors);
            let prompt = editor::redrawn(after.mux.panes[k].1.editor);
            let told = Seq::new(errors.len(), |j: int| error::rendered(errors[j], line));
            &&& at_rest(e.mux, after.mux, k, false)
            &&& prompt.len() > 0 ==> after.events == e.events + all_shown(pane, told.push(prompt))
        }),
{
    let pane = e.mux.panes[k].0;
    let told = Seq::new(errors.len(), |j: int| error::rendered(errors[j], line));
    assert(execute::error_texts(errors, line) =~= told);
    assert(none_empty(told));
    texts_are_shown(pane, told);
    let printed = e.emitting(execute::chunks(pane, told));
    ended_is(printed, k, false);
    let after = execute::misparsed(e, pane, line, errors);
    let prompt = editor::redrawn(after.mux.panes[k].1.editor);
    if prompt.len() > 0 {
        pushed_one(pane, told, prompt);
        assert(after.events =~= e.events + all_shown(pane, told.push(prompt)));
    }
}

/// A pane's history and width are those of the pane with that number; a pane that is
/// not there has no history and is 80 columns wide.
pub proof fn panes_know_their_history(m: MuxView, k: int, gone: u32)
    requires
        maps::distinct_keys(m.panes),
        0 <= k < m.panes.len(),
        forall|j: int| 0 <= j < m.panes.len() ==> (#[trigger] m.panes[j]).0 != gone,
    ensures
        execute::history_of(m, m.panes[k].0) == m.panes[k].1.editor.history,
        execute::width_of(m, m.panes[k].0) == m.panes[k].1.cols,
        execute::history_of(m, gone).len() == 0,
        execute::width_of(m, gone) == 80,
{
    maps::key_at_index(m.panes, k);
    maps::key_at_is_first(m.panes, gone);
}

/// A name in a pane stands for the variable of the session that the pane is in, and for
/// the host's where that session has none of the name.
pub proof fn panes_see_their_session(e: EngineView, i: int, pane: u32, name: Seq<char>)
    requires
        0 <= i < e.mux.sessions.len(),
        model::window_with(e.mux.sessions[i].1.windows, pane) is Some,
        forall|j: int|
            0 <= j < e.mux.sessions.len() && j != i ==> model::window_with(
                (#[trigger] e.mux.sessions[j]).1.windows,
                pane,
            ) is None,
        value::names_distinct(e.host_vars),
        value::names_distinct(e.mux.sessions[i].1.vars),
    ensures
        ({
            let own = value::lookup(e.mux.sessions[i].1.vars, name);
            let seen = value::lookup(engine::visible_scope(e, pane), name);
            &&& own is Some ==> seen == own
            &&& own is None ==> seen == value::lookup(e.host_vars, name)
        }),
        execute::session_layer(e, pane) == e.mux.sessions[i].1.vars,
        forall|k: int|
            0 <= k < execute::listed_vars(e, pane).len() ==> value::lookup(
                engine::visible_scope(e, pane),
                (#[trigger] execute::listed_vars(e, pane)[k]).name,
            ) == Some(execute::listed_vars(e, pane)[k].value),
{
    soundness::session_with_is(e.mux.sessions, pane);
    let own = e.mux.sessions[i].1.vars;
    engine::session_values_shadow_host_values(e.host_vars, own, name);
    assert forall|k: int| 0 <= k < execute::listed_vars(e, pane).len() implies value::lookup(
        engine::visible_scope(e, pane),
        (#[trigger] execute::listed_vars(e, pane)[k]).name,
    ) == Some(execute::listed_vars(e, pane)[k].value) by {
        execute::listed_vars_are_what_names_resolve_to(e.host_vars, own, k);
    }
}

/// Closing some panes takes the runs of exactly those panes and leaves all others.
pub proof fn closing_panes_takes_their_runs(running: Seq<Task>, panes: Seq<u32>, t: Task)
    ensures
        tasks::of_panes(running, panes).0.contains(t) <==> running.contains(t) && panes.contains(
            t.pane,
        ),
        tasks::of_panes(running, panes).1.contains(t) <==> running.contains(t) && !panes.contains(
            t.pane,
        ),
    decreases panes.len(),
{
    if panes.len() > 0 {
        let init = panes.drop_last();
        let last = panes.last();
        closing_panes_takes_their_runs(running, init, t);
        let (victims, left) = tasks::of_panes(running, init);
        tasks::aborting_a_pane_spares_the_others(left, last, t);
        let more = tasks::of_pane(left, last);
        let both = victims + more;
        if victims.contains(t) {
            let k = choose|k: int| 0 <= k < victims.len() && victims[k] == t;
            assert(both[k] == t);
        }
        if more.contains(t) {
            let k = choose|k: int| 0 <= k < more.len() && more[k] == t;
            assert(both[victims.len() + k] == t);
        }
        if both.contains(t) {
            let k = choose|k: int| 0 <= k < both.len() && both[k] == t;
            if k < victims.len() {
                assert(victims[k] == t);
            } else {
                assert(more[k - victims.len()] == t);
            }
        }
        assert(panes =~= init.push(last));
        if init.contains(t.pane) {
            let k = choose|k: int| 0 <= k < init.len() && init[k] == t.pane;
            assert(panes[k] == t.pane);
        }
        if panes.contains(t.pane) && t.pane != last {
            let k = choose|k: int| 0 <= k < panes.len() && panes[k] == t.pane;
            assert(init[k] == t.pane);
        }
        if t.pane == last {
            assert(panes[panes.len() - 1] == t.pane);
        }
    }
}

/// A channel has the lines that were recorded on it, in the order in which they were
/// recorded, and none of the other channel's.
pub proof fn channels_have_their_own_lines(a: Seq<RecordView>, r: RecordView, b: Seq<RecordView>)
    ensures
        sink::channel_lines(a + b, r.channel) == sink::channel_lines(a, r.channel)
            + sink::channel_lines(b, r.channel),
        sink::channel_lines(seq![r], r.channel) == seq![r.text],
        sink::channel_lines(Seq::empty(), r.channel).len() == 0,
        forall|other: Channel|
            other != r.channel ==> #[trigger] sink::channel_lines(seq![r], other).len() == 0,
    decreases b.len(),
{
    reveal_with_fuel(sink::channel_lines, 2);
    assert(seq![r].drop_last() =~= Seq::empty());
    if b.len() == 0 {
        assert(a + b =~= a);
        assert(sink::channel_lines(b, r.channel) =~= Seq::empty());
    } else {
        channels_have_their_own_lines(a, r, b.drop_last());
        assert((a + b).drop_last() =~= a + b.drop_last());
        assert((a + b).last() == b.last());
    }
}

/// A function or a command can be registered under a name that is not blank. A
/// function's name must not begin with the sign that calls it.
pub proof fn names_to_register(name: Seq<char>)
    requires
        name.len() > 0,
    ensures
        !text::whitespace(name[0]) && name[0] != '@' ==> host::fn_name_fault(name) is None,
        !text::whitespace(name[0]) ==> host::command_name_fault(name) is None,
        name[0] == '@' ==> host::fn_name_fault(name) is Some,
        crate::laws::texts::blank(name) ==> host::fn_name_fault(name) is Some
            && host::command_name_fault(name) is Some,
        host::fn_name_fault(Seq::empty()) is Some,
        host::command_name_fault(Seq::empty()) is Some,
{
    let none = Seq::<char>::empty();
    crate::laws::texts::trimming_takes_off_the_ends(none, none, none);
    assert(none + none + none =~= none);
    if crate::laws::texts::blank(name) {
        crate::laws::texts::trimming_takes_off_the_ends(name, none, none);
        assert(name + none + none =~= name);
    }
    if !text::whitespace(name[0]) {
        first_stays(name);
    }
}

proof fn first_stays(name: Seq<char>)
    requires
        name.len() > 0,
        !text::whitespace(name[0]),
    ensures
        text::trimmed(name).len() > 0,
    decreases name.len(),
{
    if text::whitespace(name.last()) {
        let cut = name.drop_last();
        assert(cut[0] == name[0]);
        first_stays(cut);
        ends_fall_off(name);
    } else {
        let none = Seq::<char>::empty();
        crate::laws::texts::trimming_takes_off_the_ends(none, name, none);
        assert(none + name + none =~= name);
    }
}

proof fn ends_fall_off(name: Seq<char>)
    requires
        name.len() > 1,
        !text::whitespace(name[0]),
        text::whitespace(name.last()),
    ensures
        text::trimmed(name) == text::trimmed(name.drop_last()),
{
}

/// A variable call goes to the host's variables where it names no scope or `host`, and
/// to the session that it names where the scope is `session`; it is refused where a
/// session is missing or the scope has another name.
pub proof fn scopes_say_where_variables_go(session: Option<u32>, scope: String)
    ensures
        host::target_of(None) == Ok::<VarTarget, Seq<char>>(VarTarget::Host),
        host::target_of(Some(VarOptions { scope: None, session })) == Ok::<VarTarget, Seq<char>>(
            VarTarget::Host,
        ),
        ({
            let r = host::target_of(Some(VarOptions { scope: Some(scope), session }));
            &&& scope@ == "host"@ ==> r == Ok::<VarTarget, Seq<char>>(VarTarget::Host)
            &&& scope@ == "session"@ && session is Some ==> r == Ok::<VarTarget, Seq<char>>(
                VarTarget::Session(session->Some_0),
            )
            &&& scope@ == "session"@ && session is None ==> r is Err
            &&& scope@ != "host"@ && scope@ != "session"@ ==> r is Err
        }),
{
    reveal_strlit("host");
    reveal_strlit("session");
    assert("host"@.len() != "session"@.len());
}

/// What a function of the host gives is what the call gives. Where it throws, or gives
/// what the shell does not have, the call fails and says which function it was and what
/// was wrong.
pub proof fn calls_give_what_the_function_gives(
    source: Seq<char>,
    registered: bool,
    v: ValueView,
    msg: Seq<char>,
    r: Result<ValueView, Seq<char>>,
)
    ensures
        ({
            let label = host::fn_label(source, registered);
            let name = if registered {
                seq!['@'] + source
            } else {
                source
            };
            &&& host::call_outcome(label, None, Ok(v)) == Ok::<ValueView, Seq<char>>(v)
            &&& host::call_outcome(label, Some(msg), r) == Err::<ValueView, Seq<char>>(
                seq!['`'] + name + "` threw: "@ + msg,
            )
            &&& host::call_outcome(label, None, Err(msg)) == Err::<ValueView, Seq<char>>(
                seq!['`'] + name + "`: "@ + msg,
            )
        }),
{
    reveal_strlit("`@");
    reveal_strlit("`");
    reveal_strlit(" threw: ");
    reveal_strlit("` threw: ");
    reveal_strlit(": ");
    reveal_strlit("`: ");
    let label = host::fn_label(source, registered);
    let name = if registered {
        seq!['@'] + source
    } else {
        source
    };
    assert(label =~= seq!['`'] + name + seq!['`']);
    assert(label + " threw: "@ + msg =~= seq!['`'] + name + "` threw: "@ + msg);
    assert(label + ": "@ + msg =~= seq!['`'] + name + "`: "@ + msg);
}

/// A promise is rejected with the error's message, and with its help behind it in
/// brackets where it has one.
pub proof fn rejections_say_what_was_wrong(e: ErrorView, help: Seq<char>)
    ensures
        host::rejection(ErrorView { help: None, ..e }) == e.msg,
        host::rejection(ErrorView { help: Some(help), ..e }) == e.msg + seq![' ', '('] + help + seq![
            ')',
        ],
{
    reveal_strlit(" (");
    reveal_strlit(")");
    assert(" ("@ =~= seq![' ', '(']);
    assert(")"@ =~= seq![')']);
}

} // verus!
