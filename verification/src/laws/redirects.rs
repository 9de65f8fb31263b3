//! How a line's pipelines follow each other, what their redirects read and write, and
//! how what comes out of them is painted.

use crate::ask;
use crate::ask::{QueryView, ReplySeq, ReplyView, StopView, Ticket};
use crate::ast::{CallView, ExprView, OutputView, PipelineView, RedirectsView};
use crate::error::Span;
use crate::eval;
use crate::eval::LineRunView;
use crate::execute;
use crate::pipeline;
use crate::pipeline::{EnvView, StageView};
use crate::progress;
use crate::progress::ConsumerView;
use crate::redirect;
use crate::redirect::DestinationView;
use crate::registry::DataView;
use crate::render::stream;
use crate::render::stream::RendererView;
use crate::render::table;
use crate::sink::{Channel, RecordView};
use crate::value::ValueView;
use vstd::prelude::*;

verus! {

/// A query is answered by the first reply that was given to it, and by no reply to
/// another query.
pub proof fn answers_are_found(replies: ReplySeq, q: QueryView, other: QueryView, r: ReplyView)
    ensures
        ask::reply_to(Seq::empty(), q) is None,
        ask::reply_to(replies, q) is None ==> ask::reply_to(replies.push((q, r)), q) == Some(r),
        ask::reply_to(replies, q) is Some ==> ask::reply_to(replies.push((q, r)), q)
            == ask::reply_to(replies, q),
        other != q ==> ask::reply_to(replies.push((q, r)), other) == ask::reply_to(replies, other),
{
    assert(replies.push((q, r)).drop_last() =~= replies);
}

/// A line where its pipelines have given these results, one after the other.
pub open spec fn line_after(pipelines: Seq<PipelineView>, results: Seq<DataView>) -> LineRunView
    decreases results.len(),
{
    if results.len() == 0 {
        eval::line_begun(pipelines)
    } else {
        line_after(pipelines, results.drop_last()).with_result(results.last())
    }
}

proof fn what_is_left(pipelines: Seq<PipelineView>, results: Seq<DataView>)
    requires
        pipelines.len() > 0,
        results.len() < pipelines.len(),
    ensures
        ({
            let line = line_after(pipelines, results);
            let n = results.len() as int;
            &&& line.rest == pipelines.reverse().take(pipelines.len() - n - 1)
            &&& line.results == results
            &&& !line.over
            &&& line.error is None
            &&& line.to is None
            &&& line.run.stages == pipeline::begun(pipelines[n].calls).stages
            &&& line.run.links == pipeline::begun(pipelines[n].calls).links
            &&& line.run.out.len() == 0
            &&& line.run.failure is None
            &&& (line.pending is None <==> pipelines[n].redirects == RedirectsView::none())
            &&& line.pending matches Some(r) ==> r == pipelines[n].redirects
        }),
    decreases results.len(),
{
    let back = pipelines.reverse();
    let n = results.len() as int;
    if n == 0 {
        assert(back.drop_last() =~= back.take(pipelines.len() - 1));
        assert(back.last() == pipelines[0]);
        assert(results =~= Seq::empty());
    } else {
        what_is_left(pipelines, results.drop_last());
        let before = back.take(pipelines.len() - n);
        assert(before.drop_last() =~= back.take(pipelines.len() - n - 1));
        assert(before.last() == pipelines[n]);
        assert(results.drop_last().push(results.last()) =~= results);
    }
}

/// The pipelines of a line run in the order in which they stand, each with its own
/// commands and redirects, after the one before it gave its result. The line is over
/// when all of them have, and has their results in that order.
pub proof fn pipelines_run_in_order(pipelines: Seq<PipelineView>, results: Seq<DataView>)
    requires
        results.len() <= pipelines.len(),
        pipelines.len() > 0,
    ensures
        ({
            let line = line_after(pipelines, results);
            let n = results.len() as int;
            &&& line.results == results
            &&& line.error is None
            &&& (line.over <==> n == pipelines.len())
            &&& n < pipelines.len() ==> {
                &&& line.run.stages == pipeline::begun(pipelines[n].calls).stages
                &&& line.run.out.len() == 0
                &&& line.run.failure is None
                &&& (line.pending is None <==> pipelines[n].redirects == RedirectsView::none())
                &&& line.pending matches Some(r) ==> r == pipelines[n].redirects
            }
        }),
{
    if results.len() < pipelines.len() {
        what_is_left(pipelines, results);
    } else {
        what_is_left(pipelines, results.drop_last());
        assert(results.drop_last().push(results.last()) =~= results);
    }
}

/// A pipeline that reads from a name asks the host for what is there and starts with
/// the value it is given. Where it writes to a name, its result will go there, added or
/// in place of what is there, as the redirect says.
pub proof fn redirects_name_their_targets(
    from: Seq<char>,
    to: Seq<char>,
    append: bool,
    at: Span,
    at_to: Span,
    step: u64,
    env: EnvView,
)
    ensures
        ({
            let source = ExprView::Literal(ValueView::Str(from), at);
            let target = ExprView::Literal(ValueView::Str(to), at_to);
            let output = Some(OutputView { target, append });
            let both = redirect::opened(RedirectsView { input: Some(source), output }, step, env);
            let only = redirect::opened(RedirectsView { input: None, output }, step, env);
            let neither = redirect::opened(RedirectsView { input: None, output: None }, step, env);
            let query = QueryView::ReadFrom(Ticket { step, nth: 0 }, from);
            let there = DestinationView { name: to, append, span: at_to };
            &&& only == Ok::<(Option<ValueView>, Option<DestinationView>), StopView>(
                (None, Some(there)),
            )
            &&& neither == Ok::<(Option<ValueView>, Option<DestinationView>), StopView>(
                (None, None),
            )
            &&& ask::reply_to(env.replies, query) is None ==> both == Err::<
                (Option<ValueView>, Option<DestinationView>),
                StopView,
            >(StopView::Need(query))
            &&& ask::reply_to(env.replies, query) matches Some(ReplyView::Value(v)) ==> both == Ok::<
                (Option<ValueView>, Option<DestinationView>),
                StopView,
            >((Some(v), Some(there)))
            &&& ask::reply_to(env.replies, query) matches Some(ReplyView::Refused(s)) ==> (both
                matches Err(StopView::Fail(e)) && e.msg == s && e.span == Some(at))
        }),
{
}

/// What a pipeline writes is sent to the host under the name that the redirect gives,
/// to be added or to take the place of what is there. It is written where the host says
/// so, and not where the host refuses it: then the line fails at the redirect.
pub proof fn results_go_to_their_target(d: DestinationView, v: ValueView, step: u64, env: EnvView)
    ensures
        ({
            let query = QueryView::WriteTo(Ticket { step, nth: 0 }, d.name, v, d.append);
            let r = redirect::stored(d, v, step, env);
            &&& ask::reply_to(env.replies, query) is None ==> r == Err::<(), StopView>(
                StopView::Need(query),
            )
            &&& (r is Ok <==> ask::reply_to(env.replies, query) == Some(ReplyView::Done))
            &&& ask::reply_to(env.replies, query) matches Some(ReplyView::Refused(s)) ==> (r matches
                Err(StopView::Fail(e)) && e.msg == s && e.span == Some(d.span))
        }),
{
}

/// Texts one behind the other.
pub open spec fn run_on(texts: Seq<Seq<char>>) -> Seq<char>
    decreases texts.len(),
{
    if texts.len() == 0 {
        Seq::empty()
    } else {
        texts[0] + run_on(texts.drop_first())
    }
}

/// Once the widths of a table are fixed, each further record is painted as a row of it,
/// in the order in which they come, and the end of the stream closes the table.
pub proof fn later_rows_are_painted_as_they_come(
    r: RendererView,
    rows: Seq<ValueView>,
    texts: Seq<Seq<char>>,
    i: int,
    replies: ReplySeq,
)
    requires
        r.committed is Some,
        0 <= i <= rows.len(),
        texts.len() == rows.len(),
        forall|k: int|
            0 <= k < rows.len() ==> table::row_text(
                #[trigger] rows[k],
                r.committed->Some_0.cols,
                r.committed->Some_0.widths,
                replies,
            ) == Ok::<Seq<char>, StopView>(texts[k]),
    ensures
        stream::painted_from(r, rows, i, replies) == Ok::<Seq<char>, StopView>(
            run_on(texts.skip(i)) + table::bottom_text(r.committed->Some_0.widths),
        ),
    decreases rows.len() - i,
{
    if i < rows.len() {
        later_rows_are_painted_as_they_come(r, rows, texts, i + 1, replies);
        let left = texts.skip(i);
        assert(left[0] == texts[i]);
        assert(left.drop_first() =~= texts.skip(i + 1));
        let rest = run_on(texts.skip(i + 1)) + table::bottom_text(r.committed->Some_0.widths);
        assert(texts[i] + rest =~= run_on(left) + table::bottom_text(
            r.committed->Some_0.widths,
        ));
    } else {
        assert(texts.skip(i) =~= Seq::empty());
        assert(run_on(texts.skip(i)) + table::bottom_text(r.committed->Some_0.widths)
            =~= Seq::<char>::empty() + table::bottom_text(r.committed->Some_0.widths));
    }
}

/// Records are painted as rows; everything else is kept until the end and reported
/// then, unless something was painted: then it is printed behind the table, and there
/// is nothing to report.
pub proof fn records_are_painted(c: ConsumerView, d: DataView, replies: ReplySeq)
    ensures
        !(d matches DataView::Value(ValueView::Record(_))) ==> progress::item_step(c, d, replies)
            == Ok::<(ConsumerView, Option<Seq<char>>), StopView>(
            (ConsumerView { buffered: c.buffered.push(d), ..c }, None),
        ),
        d matches DataView::Value(ValueView::Record(fields)) ==> {
            &&& progress::item_step(c, d, replies) matches Ok((after, t)) ==> {
                &&& after.painted
                &&& after.buffered == c.buffered
                &&& stream::push_step(c.renderer, ValueView::Record(fields), replies)
                    == Ok::<(RendererView, Option<Seq<char>>), StopView>((after.renderer, t))
            }
        },
        !c.painted && c.buffered.len() == 0 ==> (progress::last_step(c, replies) matches Ok(
            (_, texts, result),
        ) && texts.len() == 0 && result is Empty),
        !c.painted && c.buffered.len() == 1 && !(c.buffered[0] is Rendered) ==> (progress::last_step(
            c,
            replies,
        ) matches Ok((_, texts, result)) && texts.len() == 0 && result == c.buffered[0]),
        c.painted ==> (progress::last_step(c, replies) matches Ok((_, texts, result)) ==> result
            is Empty && texts.len() == 1 + c.buffered.len()),
{
    if c.painted {
        one_text_each(c.buffered, c.buffered.len(), c.width, replies);
    }
    if c.buffered.len() == 1 && !(c.buffered[0] is Rendered) {
        assert(!eval::all_rendered(c.buffered));
    }
}

proof fn one_text_each(items: Seq<DataView>, n: nat, width: u16, replies: ReplySeq)
    requires
        n <= items.len(),
    ensures
        progress::item_texts(items, n, width, replies) matches Ok(texts) ==> texts.len() == n
            && forall|k: int|
            0 <= k < n ==> progress::item_text(items[k], width, replies) == Ok::<
                Seq<char>,
                StopView,
            >(#[trigger] texts[k]),
    decreases n,
{
    if n > 0 {
        one_text_each(items, (n - 1) as nat, width, replies);
    }
}

/// What is printed behind a table is printed item by item, in order: text that the shell
/// formatted as it is, with a line end, and nothing for nothing.
pub proof fn other_items_are_printed_in_order(
    items: Seq<DataView>,
    n: nat,
    width: u16,
    replies: ReplySeq,
)
    requires
        n <= items.len(),
    ensures
        progress::item_texts(items, n, width, replies) matches Ok(texts) ==> texts.len() == n
            && forall|k: int|
            0 <= k < n ==> {
                &&& items[k] is Empty ==> (#[trigger] texts[k]).len() == 0
                &&& items[k] matches DataView::Rendered(s) ==> texts[k] == s + seq!['\n']
                &&& items[k] matches DataView::Value(v) ==> crate::render::rendered(
                    v,
                    width,
                    replies,
                ) == Ok::<Seq<char>, StopView>(texts[k])
            },
{
    one_text_each(items, n, width, replies);
    reveal_strlit("\n");
    assert("\n"@ =~= seq!['\n']);
}

/// A raw write shows as it was written. A line on the log shows with a line end; one on
/// the error channel shows in red, and what follows it does not.
pub proof fn records_show_by_their_channel(t: Seq<char>, channel: Channel)
    ensures
        execute::record_text(RecordView { channel, text: t, raw: true }) == t,
        execute::record_text(RecordView { channel: Channel::Log, text: t, raw: false }) == t + seq![
            '\n',
        ],
        execute::record_text(RecordView { channel: Channel::Error, text: t, raw: false })
            == seq!['\x1b', '[', '3', '1', 'm'] + t + seq!['\x1b', '[', '0', 'm', '\n'],
{
    reveal_strlit("\n");
    reveal_strlit("\x1b[31m");
    reveal_strlit("\x1b[0m\n");
    assert("\n"@ =~= seq!['\n']);
    assert("\x1b[31m"@ =~= seq!['\x1b', '[', '3', '1', 'm']);
    assert("\x1b[0m\n"@ =~= seq!['\x1b', '[', '0', 'm', '\n']);
}

/// What a pipeline reports: nothing where nothing came out, one item as it is, several
/// as the list of their values, in order; and text that the shell formatted as the lines
/// of one text.
pub proof fn pipelines_report_what_came_out(items: Seq<DataView>, texts: Seq<Seq<char>>)
    ensures
        items.len() == 0 ==> eval::reported(items) is Empty,
        items.len() == 1 && !(items[0] is Rendered) ==> eval::reported(items) == items[0],
        items.len() > 1 && (exists|k: int| 0 <= k < items.len() && !(#[trigger] items[k] is Rendered))
            ==> (eval::reported(items) matches DataView::Value(ValueView::List(out)) && out.len()
            == items.len() && forall|k: int|
            0 <= k < items.len() ==> #[trigger] out[k] == items[k].value()),
        texts.len() > 0 ==> eval::reported(
            texts.map_values(|t: Seq<char>| DataView::Rendered(t)),
        ) == DataView::Rendered(crate::text::joined(texts, seq!['\n'])),
{
    reveal_strlit("\n");
    assert("\n"@ =~= seq!['\n']);
    if items.len() == 1 && !(items[0] is Rendered) {
        assert(!eval::all_rendered(items));
    }
    if exists|k: int| 0 <= k < items.len() && !(#[trigger] items[k] is Rendered) {
        assert(!eval::all_rendered(items));
    }
    if texts.len() > 0 {
        let formatted = texts.map_values(|t: Seq<char>| DataView::Rendered(t));
        assert(eval::rendered_texts(formatted) =~= texts);
        assert(eval::all_rendered(formatted));
    }
}

/// A pipeline that reads from a name has one stage more, before its first command: it
/// sends what was read, the elements of a list one after the other and any other value
/// whole.
pub proof fn what_is_read_goes_to_the_first_command(calls: Seq<CallView>, v: ValueView)
    ensures
        ({
            let plain = pipeline::begun(calls);
            let run = pipeline::fed(plain, v);
            &&& run.stages.len() == plain.stages.len() + 1
            &&& forall|k: int|
                0 <= k < plain.stages.len() ==> run.stages[k + 1] == #[trigger] plain.stages[k]
            &&& run.stages[0] matches StageView::Sending(items) && {
                &&& v matches ValueView::List(elements) ==> items.len() == elements.len() && forall|
                    k: int,
                |
                    0 <= k < elements.len() ==> #[trigger] items[k] == DataView::Value(elements[k])
                &&& !(v is List) ==> items == seq![DataView::Value(v)]
            }
        }),
{
}

/// A table's widths are fixed when fifty records have come: until then nothing is
/// painted, and every record is kept.
pub proof fn the_first_records_settle_the_widths(
    r: RendererView,
    row: ValueView,
    width: u16,
    replies: ReplySeq,
)
    ensures
        ConsumerView::fresh(width).renderer.probe_rows == 50,
        ConsumerView::fresh(width).renderer.width == width,
        ConsumerView::fresh(width).renderer.committed is None,
        r.committed is None && r.probe.len() + 1 < r.probe_rows ==> stream::push_step(
            r,
            row,
            replies,
        ) == Ok::<(RendererView, Option<Seq<char>>), StopView>(
            (RendererView { probe: r.probe.push(row), ..r }, None),
        ),
        r.committed is None && r.probe.len() + 1 >= r.probe_rows && table::columns_of(
            r.probe.push(row),
        ).len() > 0 ==> (stream::push_step(r, row, replies) matches Ok((after, t)) ==> t is Some
            && after.committed is Some && after.probe.len() == 0),
{
}

} // verus!
