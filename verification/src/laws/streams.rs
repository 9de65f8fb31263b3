//! What the commands that go item by item send on, and in what order.

use crate::ask;
use crate::ask::{QueryView, ReplySeq, ReplyView, StopView, Ticket};
use crate::builtins;
use crate::builtins::collect;
use crate::builtins::streaming;
use crate::builtins::streaming::WorkView;
use crate::builtins::Builtin;
use crate::callable;
use crate::callable::{FaultView, SelectorView};
use crate::error::Span;
use crate::eval;
use crate::laws::commands;
use crate::laws::evaluation;
use crate::laws::sorting;
use crate::pipeline;
use crate::pipeline::{EnvView, PlanView, RunView, StageView};
use crate::registry;
use crate::registry::DataView;
use crate::render;
use crate::signature::BoundCallView;
use crate::expr::NativeClosureView;
use crate::value;
use crate::value::ValueView;
use vstd::prelude::*;

verus! {

/// The stage that the command of a name starts as.
pub open spec fn starts(name: Seq<char>, call: BoundCallView, replies: ReplySeq) -> Result<
    StageView,
    StopView,
> {
    let entries = builtins::builtin_entries();
    match registry::named(entries, name) {
        Some(k) => match eval::launched(entries[k].command, call, replies) {
            Ok((s, _)) => Ok(s),
            Err(e) => Err(e),
        },
        None => Ok(StageView::Done),
    }
}

proof fn starting(which: Builtin, call: BoundCallView, replies: ReplySeq)
    requires
        collect::streams(which),
    ensures
        starts(builtins::name_of(which), call, replies) == (match streaming::started(
            which,
            call,
            replies,
        ) {
            Ok(work) => Ok::<StageView, StopView>(
                StageView::Streaming(work, call.head_span, None),
            ),
            Err(e) => Err(e),
        }),
{
    builtins::every_builtin_is_found(which);
}

/// A stage that takes items as they come.
pub open spec fn streaming_stage(r: Result<StageView, StopView>, work: WorkView, span: Span) -> bool {
    r == Ok::<StageView, StopView>(StageView::Streaming(work, span, None))
}

/// Is one of the flags of a call set?
pub open spec fn flag_set(call: BoundCallView, name: Seq<char>) -> bool {
    exists|i: int|
        0 <= i < call.flags.len() && call.flags[i] == (name, ValueView::Bool(true))
}

proof fn flags_are_found(call: BoundCallView, name: Seq<char>)
    requires
        value::names_distinct(call.flags),
    ensures
        flag_set(call, name) <==> value::lookup(call.flags, name) == Some(ValueView::Bool(true)),
{
    value::position_is_first(call.flags, name);
    if flag_set(call, name) {
        let i = choose|i: int|
            0 <= i < call.flags.len() && call.flags[i] == (name, ValueView::Bool(true));
        assert(call.flags[i].0 == name);
        let p = value::position(call.flags, name)->0;
        if p != i {
            assert(call.flags[p].0 == call.flags[i].0);
        }
    }
    if value::lookup(call.flags, name) == Some(ValueView::Bool(true)) {
        let p = value::position(call.flags, name)->0;
        assert(call.flags[p] == (name, ValueView::Bool(true)));
    }
}

/// `filter` and `map` go by the closure or the name that they are given; `head` by
/// its count, one where it has none, and refuses a negative one.
pub proof fn streaming_commands_start(
    call: BoundCallView,
    c: NativeClosureView,
    name: Seq<char>,
    n: i64,
    replies: ReplySeq,
)
    requires
        value::names_distinct(call.flags),
    ensures
        call.closures == seq![("predicate"@, c)] ==> streaming_stage(
            starts("filter"@, call, replies),
            WorkView::Filter(SelectorView::Closure(c), flag_set(call, "invert"@)),
            call.head_span,
        ),
        call.closures == seq![("selector"@, c)] ==> streaming_stage(
            starts("map"@, call, replies),
            WorkView::MapEach(SelectorView::Closure(c)),
            call.head_span,
        ),
        sorting::column_name(name) && call.closures.len() == 0 && call.positionals == seq![
            ValueView::Str(name),
        ] ==> {
            &&& streaming_stage(
                starts("filter"@, call, replies),
                WorkView::Filter(SelectorView::Field(seq![name]), flag_set(call, "invert"@)),
                call.head_span,
            )
            &&& streaming_stage(
                starts("map"@, call, replies),
                WorkView::MapEach(SelectorView::Field(seq![name])),
                call.head_span,
            )
        },
        call.positionals == seq![ValueView::Int(n)] && 0 <= n <= usize::MAX ==> streaming_stage(
            starts("head"@, call, replies),
            WorkView::Head(n as usize, 0),
            call.head_span,
        ),
        call.positionals == seq![ValueView::Int(n)] && n < 0 ==> starts(
            "head"@,
            call,
            replies,
        ) is Err,
        call.positionals.len() == 0 ==> streaming_stage(
            starts("head"@, call, replies),
            WorkView::Head(1, 0),
            call.head_span,
        ),
{
    starting(Builtin::Filter, call, replies);
    starting(Builtin::MapEach, call, replies);
    starting(Builtin::Head, call, replies);
    flags_are_found(call, "invert"@);
    if call.closures == seq![("predicate"@, c)] {
        assert(call.closures.last() == ("predicate"@, c));
    }
    if call.closures == seq![("selector"@, c)] {
        assert(call.closures.last() == ("selector"@, c));
    }
    if sorting::column_name(name) && call.closures.len() == 0 && call.positionals == seq![
        ValueView::Str(name),
    ] {
        sorting::names_select_fields(name, replies);
        assert(call.positionals[0] == ValueView::Str(name));
    }
    if call.positionals == seq![ValueView::Int(n)] {
        assert(call.positionals[0] == ValueView::Int(n));
    }
}

/// `grep` asks the host for its pattern, with or without regard to case.
pub proof fn grep_asks_for_its_pattern(
    call: BoundCallView,
    source: Seq<char>,
    handle: u64,
    replies: ReplySeq,
)
    requires
        value::names_distinct(call.flags),
        call.positionals == seq![ValueView::Str(source)],
        call.closures.len() == 0,
        forall|i: int| 0 <= i < call.flags.len() ==> (#[trigger] call.flags[i]).0 != "on"@,
        ask::reply_to(
            replies,
            QueryView::CompilePattern(source, flag_set(call, "ignore-case"@)),
        ) == Some(ReplyView::Handle(handle)),
    ensures
        streaming_stage(
            starts("grep"@, call, replies),
            WorkView::Grep(handle, None, flag_set(call, "invert"@)),
            call.head_span,
        ),
{
    starting(Builtin::Grep, call, replies);
    flags_are_found(call, "invert"@);
    flags_are_found(call, "ignore-case"@);
    value::position_is_first(call.flags, "on"@);
    assert(call.positionals[0] == ValueView::Str(source));
}

/// `filter` sends an item on as it is where what its selector makes of it counts as
/// true, and drops it where not; with `--invert` the other way round.
pub proof fn filter_keeps_what_counts_as_true(
    sel: SelectorView,
    invert: bool,
    v: ValueView,
    said: ValueView,
    span: Span,
    step: u64,
    replies: ReplySeq,
)
    requires
        callable::applied(sel, v, Ticket { step, nth: 0 }, replies) == Ok::<ValueView, FaultView>(
            said,
        ),
    ensures
        streaming::handled(
            WorkView::Filter(sel, invert),
            DataView::Value(v),
            span,
            step,
            replies,
        ) == Ok::<Option<DataView>, StopView>(
            if evaluation::counts_as_false(said) == invert {
                Some(DataView::Value(v))
            } else {
                None
            },
        ),
{
    reveal(streaming::handled);
    evaluation::zero_has_rank_zero(said);
}

/// `map` sends on what its selector makes of an item.
pub proof fn map_sends_what_the_selector_makes(
    sel: SelectorView,
    v: ValueView,
    made: ValueView,
    span: Span,
    step: u64,
    replies: ReplySeq,
)
    requires
        callable::applied(sel, v, Ticket { step, nth: 0 }, replies) == Ok::<ValueView, FaultView>(
            made,
        ),
    ensures
        streaming::handled(
            WorkView::MapEach(sel),
            DataView::Value(v),
            span,
            step,
            replies,
        ) == Ok::<Option<DataView>, StopView>(Some(DataView::Value(made))),
{
    reveal(streaming::handled);
}

/// Does the host say that a pattern matches the text that a value shows as?
pub open spec fn hits(pattern: u64, v: ValueView, replies: ReplySeq, verdict: bool) -> bool {
    render::plain_text(v, replies) matches Ok(t) && ask::reply_to(
        replies,
        QueryView::Match(pattern, t),
    ) == Some(ReplyView::Truth(verdict))
}

proof fn any_cell_is(
    pattern: u64,
    fields: Seq<(Seq<char>, ValueView)>,
    i: int,
    verdicts: Seq<bool>,
    replies: ReplySeq,
)
    requires
        0 <= i <= fields.len(),
        verdicts.len() == fields.len(),
        forall|k: int|
            0 <= k < fields.len() ==> hits(
                pattern,
                (#[trigger] fields[k]).1,
                replies,
                verdicts[k],
            ),
    ensures
        streaming::any_cell(pattern, fields, i, replies) == Ok::<bool, StopView>(
            exists|k: int| i <= k < fields.len() && #[trigger] verdicts[k],
        ),
    decreases fields.len() - i,
{
    if i < fields.len() {
        any_cell_is(pattern, fields, i + 1, verdicts, replies);
        assert(hits(pattern, fields[i].1, replies, verdicts[i]));
    }
}

/// `grep` keeps a row where the host says that its pattern matches the text of some
/// cell, and any other item where it matches the item's own text; with `--invert`
/// the other way round.
pub proof fn grep_keeps_what_matches(
    pattern: u64,
    invert: bool,
    fields: Seq<(Seq<char>, ValueView)>,
    verdicts: Seq<bool>,
    v: ValueView,
    verdict: bool,
    span: Span,
    step: u64,
    replies: ReplySeq,
)
    requires
        verdicts.len() == fields.len(),
        forall|k: int|
            0 <= k < fields.len() ==> hits(
                pattern,
                (#[trigger] fields[k]).1,
                replies,
                verdicts[k],
            ),
        !(v is Record),
        hits(pattern, v, replies, verdict),
    ensures
        streaming::handled(
            WorkView::Grep(pattern, None, invert),
            DataView::Value(ValueView::Record(fields)),
            span,
            step,
            replies,
        ) == Ok::<Option<DataView>, StopView>(
            if (exists|k: int| 0 <= k < fields.len() && #[trigger] verdicts[k]) != invert {
                Some(DataView::Value(ValueView::Record(fields)))
            } else {
                None
            },
        ),
        streaming::handled(
            WorkView::Grep(pattern, None, invert),
            DataView::Value(v),
            span,
            step,
            replies,
        ) == Ok::<Option<DataView>, StopView>(
            if verdict != invert {
                Some(DataView::Value(v))
            } else {
                None
            },
        ),
{
    reveal(streaming::handled);
    any_cell_is(pattern, fields, 0, verdicts, replies);
}

/// What came of the items that were sent on, in their order.
pub open spec fn sent_on(results: Seq<Option<DataView>>) -> Seq<DataView>
    decreases results.len(),
{
    if results.len() == 0 {
        Seq::empty()
    } else {
        match results[0] {
            Some(d) => seq![d] + sent_on(results.drop_first()),
            None => sent_on(results.drop_first()),
        }
    }
}

/// A stage in the middle of a run with all of its input there and room for all of
/// its output.
pub open spec fn with_room(m: RunView, k: int) -> bool {
    &&& m.wf()
    &&& 0 <= k < m.stages.len()
    &&& m.links[k].sender_gone
    &&& !m.links[k + 1].receiver_gone
    &&& m.links[k + 1].items.len() + m.links[k].items.len() <= m.links[k + 1].capacity
}

/// `head` sends on the first items, as many as it was asked for, as they are and in
/// their order, and then ends; nothing else of the run changes.
pub proof fn head_sends_the_first_items(
    m: RunView,
    k: int,
    limit: usize,
    taken: usize,
    span: Span,
    env: EnvView,
)
    requires
        with_room(m, k),
        m.stages[k] == StageView::Streaming(WorkView::Head(limit, taken), span, None),
        taken <= limit,
    ensures
        ({
            let n = pipeline::polled(m, k, env);
            let wanted = commands::lesser(limit - taken, m.links[k].items.len() as int);
            &&& n.need is None
            &&& n.run.stages[k] is Done
            &&& n.run.links[k].receiver_gone
            &&& n.run.links[k + 1].sender_gone
            &&& n.run.links[k + 1].items == m.links[k + 1].items + m.links[k].items.take(wanted)
            &&& n.run.failure == m.failure
        }),
    decreases m.links[k].items.len(),
{
    reveal(streaming::handled);
    let items = m.links[k].items;
    pipeline::steps_keep_bounds(m, k, env);
    if taken < limit && items.len() > 0 {
        let first = pipeline::performed(m, k, PlanView::Pass(Some(items[0])));
        assert(pipeline::planned(m, k, env) == Ok::<PlanView, QueryView>(
            PlanView::Pass(Some(items[0])),
        ));
        pipeline::steps_keep_bounds(first, k, env);
        assert(pipeline::planned(first, k, env) == Ok::<PlanView, QueryView>(PlanView::SendHeld));
        let next = pipeline::performed(first, k, PlanView::SendHeld);
        assert(next.stages[k] == StageView::Streaming(
            WorkView::Head(limit, (taken + 1) as usize),
            span,
            None,
        ));
        head_sends_the_first_items(next, k, limit, (taken + 1) as usize, span, env);
        assert(pipeline::polled(m, k, env).run == pipeline::polled(first, k, env).run);
        assert(pipeline::polled(first, k, env).run == pipeline::polled(next, k, env).run);
        let wanted = commands::lesser(limit - taken, items.len() as int);
        assert(m.links[k + 1].items.push(items[0]) + items.drop_first().take(wanted - 1)
            =~= m.links[k + 1].items + items.take(wanted));
    } else {
        let done = pipeline::performed(m, k, PlanView::Close);
        assert(pipeline::planned(m, k, env) == Ok::<PlanView, QueryView>(PlanView::Close));
        assert(done.stages[k] is Done);
        assert(pipeline::polled(done, k, env).run == done);
        assert(pipeline::polled(m, k, env).run == done);
        assert(m.links[k + 1].items + items.take(0) =~= m.links[k + 1].items);
    }
}

/// Whenever its turn comes, an item comes to a result.
pub open spec fn comes_of(
    work: WorkView,
    item: DataView,
    result: Option<DataView>,
    span: Span,
    replies: ReplySeq,
) -> bool {
    forall|step: u64| #[trigger]
        streaming::handled(work, item, span, step, replies) == Ok::<Option<DataView>, StopView>(
            result,
        )
}

/// A command that goes item by item sends on what comes of each item, in the order
/// of the items, and ends when they do.
pub proof fn items_go_through_in_order(
    m: RunView,
    k: int,
    work: WorkView,
    results: Seq<Option<DataView>>,
    span: Span,
    env: EnvView,
)
    requires
        with_room(m, k),
        m.stages[k] == StageView::Streaming(work, span, None),
        !(work is Head),
        results.len() == m.links[k].items.len(),
        forall|i: int|
            0 <= i < results.len() ==> comes_of(
                work,
                m.links[k].items[i],
                #[trigger] results[i],
                span,
                env.replies,
            ),
    ensures
        ({
            let n = pipeline::polled(m, k, env);
            &&& n.need is None
            &&& n.run.stages[k] is Done
            &&& n.run.links[k + 1].sender_gone
            &&& n.run.links[k + 1].items == m.links[k + 1].items + sent_on(results)
            &&& n.run.failure == m.failure
        }),
    decreases m.links[k].items.len(),
{
    let items = m.links[k].items;
    pipeline::steps_keep_bounds(m, k, env);
    if items.len() > 0 {
        assert(comes_of(work, items[0], results[0], span, env.replies));
        assert(streaming::handled(work, items[0], span, m.step, env.replies) == Ok::<
            Option<DataView>,
            StopView,
        >(results[0]));
        let first = pipeline::performed(m, k, PlanView::Pass(results[0]));
        let rest = results.drop_first();
        assert(pipeline::polled(m, k, env).run == pipeline::polled(first, k, env).run);
        match results[0] {
            Some(d) => {
                assert(pipeline::planned(first, k, env) == Ok::<PlanView, QueryView>(
                    PlanView::SendHeld,
                ));
                pipeline::steps_keep_bounds(first, k, env);
                let next = pipeline::performed(first, k, PlanView::SendHeld);
                assert forall|i: int| 0 <= i < rest.len() implies comes_of(
                    work,
                    next.links[k].items[i],
                    #[trigger] rest[i],
                    span,
                    env.replies,
                ) by {
                    assert(rest[i] == results[i + 1]);
                    assert(next.links[k].items[i] == items[i + 1]);
                }
                items_go_through_in_order(next, k, work, rest, span, env);
                assert(pipeline::polled(first, k, env).run == pipeline::polled(
                    next,
                    k,
                    env,
                ).run);
                assert(m.links[k + 1].items.push(d) + sent_on(rest) =~= m.links[k + 1].items
                    + sent_on(results));
            },
            None => {
                assert forall|i: int| 0 <= i < rest.len() implies comes_of(
                    work,
                    first.links[k].items[i],
                    #[trigger] rest[i],
                    span,
                    env.replies,
                ) by {
                    assert(rest[i] == results[i + 1]);
                    assert(first.links[k].items[i] == items[i + 1]);
                }
                items_go_through_in_order(first, k, work, rest, span, env);
            },
        }
    } else {
        let done = pipeline::performed(m, k, PlanView::Close);
        assert(pipeline::planned(m, k, env) == Ok::<PlanView, QueryView>(PlanView::Close));
        assert(pipeline::polled(done, k, env).run == done);
        assert(pipeline::polled(m, k, env).run == done);
        assert(m.links[k + 1].items + sent_on(results) =~= m.links[k + 1].items);
    }
}

} // verus!
