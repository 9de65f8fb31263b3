//! Pipeline evaluation: how a call becomes a running stage, and what a line
//! reports.

use crate::ask::{Query, Replies, ReplySeq, Stop, StopView};
use crate::ast;
use crate::ast::{Call, CallView, Pipeline, PipelineView, Redirects, RedirectsView};
use crate::builtins::collect;
use crate::builtins::streaming;
use crate::builtins::streaming::Work;
use crate::builtins::Builtin;
use crate::error::{ErrorView, ShellError};
use crate::pipeline;
use crate::pipeline::{Env, EnvView, PipelineRun, Round, RunView, Stage, StageView, Yield};
use crate::redirect;
use crate::redirect::{Destination, DestinationView};
use crate::registry;
use crate::registry::{Command, DataView, EntrySeq, PipelineData};
use crate::signature;
use crate::signature::{BoundCall, BoundCallView};
use crate::stream;
use crate::text;
use crate::value::{Value, ValueView};
use vstd::prelude::*;

verus! {

broadcast use crate::value::value_view_cases;

/// Texts as trusted, pre-styled items.
pub open spec fn rendered_items(lines: Seq<Seq<char>>) -> Seq<DataView> {
    lines.map_values(|s: Seq<char>| DataView::Rendered(s))
}

/// Trusted, pre-styled text as one `Rendered` item per line, so `cmd --help |
/// grep flag` filters lines. A downstream stage consuming these gets plain
/// `Str`, which is where the trust drops.
pub open spec fn line_items(page: Seq<char>) -> Seq<DataView> {
    rendered_items(text::lines_from(page, 0))
}

pub fn send_lines(page: &str) -> (r: Vec<PipelineData>)
    ensures
        registry::items_view(r@) == line_items(page@),
{
    let lines = text::lines(page);
    let mut out: Vec<PipelineData> = Vec::new();
    let mut i: usize = 0;
    while i < lines.len()
        invariant
            i <= lines@.len(),
            out@.len() == i,
            forall|k: int| 0 <= k < i ==> (#[trigger] out@[k])@ == DataView::Rendered(lines@[k]@),
        decreases lines@.len() - i,
    {
        out.push(PipelineData::Rendered(lines[i].clone()));
        i = i + 1;
    }
    proof {
        assert(registry::items_view(out@) =~= rendered_items(text::texts(lines@)));
    }
    out
}

pub open spec fn help_asked(call: CallView) -> bool {
    exists|i: int| 0 <= i < call.args.len() && signature::asks_help(#[trigger] call.args[i])
}

/// What the items of a streaming command stand for: one item of `head` without
/// a count is just that item, and every other command keeps what its input
/// stands for.
pub open spec fn stream_yield(which: Builtin, call: BoundCallView) -> Yield {
    if which == Builtin::Head && call.positionals.len() == 0 {
        Yield::Single
    } else {
        Yield::Same
    }
}

/// A bound call of a command as a stage, and what its items stand for.
pub open spec fn launched(command: Command, call: BoundCallView, replies: ReplySeq) -> Result<
    (StageView, Yield),
    StopView,
> {
    match command {
        Command::Builtin(which) => if collect::streams(which) {
            match streaming::started(which, call, replies) {
                Ok(work) => Ok(
                    (
                        StageView::Streaming(work, call.head_span, None),
                        stream_yield(which, call),
                    ),
                ),
                Err(e) => Err(e),
            }
        } else {
            Ok((StageView::Collecting(which, call, Seq::empty()), Yield::Single))
        },
        Command::External(handle) => Ok((StageView::Outside(handle, call), Yield::Single)),
    }
}

/// A call as a stage: the command with the longest matching name, or the page
/// of a group. `--help` is intercepted before binding, so a malformed call
/// still gets help.
#[verifier::opaque]
pub open spec fn entered(call: CallView, env: EnvView) -> Result<(StageView, Yield), StopView> {
    let words = registry::word_nodes(call.words);
    match registry::longest_prefix(env.entries, words, words.len() as int) {
        None => match registry::group_page(env.entries, words) {
            Some(page) => Ok((StageView::Sending(line_items(page)), Yield::Single)),
            None => Err(StopView::Fail(registry::unknown_command(env.entries, call.words))),
        },
        Some((i, n)) => {
            let entry = env.entries[i];
            if help_asked(call) {
                Ok(
                    (
                        StageView::Sending(line_items(signature::help_text(entry.signature))),
                        Yield::Single,
                    ),
                )
            } else {
                match signature::bound_call(
                    entry.signature,
                    call.words.skip(n),
                    call,
                    env.scope,
                    env.replies,
                ) {
                    Err(e) => Err(e),
                    Ok(bound) => launched(entry.command, bound, env.replies),
                }
            }
        },
    }
}

pub(crate) proof fn entering_leaves_waiting(call: CallView, env: EnvView)
    ensures
        entered(call, env) matches Ok((s, _)) ==> pipeline::phase(s) < 3 && pipeline::sound_stage(
            s,
        ) && !(s is Done),
{
    reveal(entered);
}

/// No signature declares more parameters than a count can hold.
pub open spec fn countable(entries: EntrySeq) -> bool {
    forall|i: int|
        0 <= i < entries.len() ==> (#[trigger] entries[i]).signature.required.len()
            + entries[i].signature.optional.len() <= usize::MAX
}

/// A stage and what its items stand for, or why there is none.
pub open spec fn stage_result(r: Result<(Stage, Yield), Stop>) -> Result<
    (StageView, Yield),
    StopView,
> {
    match r {
        Ok((s, y)) => Ok((s@, y)),
        Err(e) => Err(e@),
    }
}

fn queue(items: Vec<PipelineData>) -> (r: Stage)
    ensures
        r@ == StageView::Sending(registry::items_view(items@)),
{
    proof {
        assert(registry::items_view(items@).skip(0) =~= registry::items_view(items@));
    }
    Stage::Sending(items, 0)
}

fn launch(command: Command, bound: BoundCall, replies: &Replies) -> (r: Result<
    (Stage, Yield),
    Stop,
>)
    ensures
        stage_result(r) == launched(command, bound@, replies@),
{
    match command {
        Command::Builtin(which) => {
            match which {
                Builtin::Grep | Builtin::MapEach | Builtin::Filter | Builtin::Head => {
                    match Work::start(which, &bound, replies) {
                        Ok(work) => {
                            let single = match which {
                                Builtin::Head => bound.positionals.len() == 0,
                                _ => false,
                            };
                            let y = if single {
                                Yield::Single
                            } else {
                                Yield::Same
                            };
                            Ok((Stage::Streaming(work, bound.head_span, None), y))
                        },
                        Err(e) => Err(e),
                    }
                },
                _ => {
                    let none: Vec<Value> = Vec::new();
                    proof {
                        assert(crate::value::values_view(none@) =~= Seq::<ValueView>::empty());
                    }
                    Ok((Stage::Collecting(which, bound, none), Yield::Single))
                },
            }
        },
        Command::External(handle) => Ok((Stage::Outside(handle, bound), Yield::Single)),
    }
}

/// Turn a call into a stage.
pub fn enter(call: &Call, env: &Env) -> (r: Result<(Stage, Yield), Stop>)
    requires
        call@.words.len() > 0,
        countable(env@.entries),
    ensures
        stage_result(r) == entered(call@, env@),
{
    proof {
        reveal(entered);
    }
    let words = registry::node_texts(&call.words);
    match env.registry.lookup(&words) {
        // Not a command — but it may be a group, in which case naming it
        // (with or without `--help`) should list what lives under it.
        None => match env.registry.group_help(&words) {
            Some(page) => Ok((queue(send_lines(page.as_str())), Yield::Single)),
            None => Err(Stop::Fail(env.registry.unknown_command_error(&call.words))),
        },
        Some((entry, consumed)) => {
            proof {
                registry::longest_prefix_wins(
                    env@.entries,
                    text::texts(words@),
                    words@.len() as int,
                );
                let i = registry::longest_prefix(
                    env@.entries,
                    text::texts(words@),
                    words@.len() as int,
                )->Some_0.0;
                registry::named_is_first(
                    env@.entries,
                    text::joined(text::texts(words@).take(consumed as int), " "@),
                );
                assert(0 <= i < env@.entries.len());
                assert(entry@ == env@.entries[i]);
                assert(entry@.signature.required.len() == entry.signature.required@.len());
                assert(entry@.signature.optional.len() == entry.signature.optional@.len());
            }
            if signature::wants_help(call) {
                let page = entry.signature.render_help();
                return Ok((queue(send_lines(page.as_str())), Yield::Single));
            }
            let rest = vstd::slice::slice_subrange(
                call.words.as_slice(),
                consumed,
                call.words.len(),
            );
            proof {
                assert(ast::words_view(rest@) =~= call@.words.skip(consumed as int));
            }
            match signature::bind(&entry.signature, rest, call, env.scope, env.replies) {
                Err(e) => Err(e),
                Ok(bound) => launch(entry.command, bound, env.replies),
            }
        },
    }
}

/// Are all items text that this shell formatted itself?
pub open spec fn all_rendered(items: Seq<DataView>) -> bool {
    forall|i: int| 0 <= i < items.len() ==> #[trigger] items[i] is Rendered
}

pub open spec fn rendered_texts(items: Seq<DataView>) -> Seq<Seq<char>> {
    items.map_values(
        |d: DataView|
            match d {
                DataView::Rendered(s) => s,
                _ => Seq::empty(),
            },
    )
}

/// The value that a pipeline reports for what came out of its last stage.
/// Formatted text stays formatted, one item a line; a single item stays what it
/// is; several become a list.
pub open spec fn reported(items: Seq<DataView>) -> DataView {
    if items.len() > 0 && all_rendered(items) {
        DataView::Rendered(text::joined(rendered_texts(items), "\n"@))
    } else if items.len() == 0 {
        DataView::Empty
    } else if items.len() == 1 {
        items[0]
    } else {
        DataView::Value(ValueView::List(stream::as_values(items)))
    }
}

fn every_rendered(items: &Vec<PipelineData>) -> (r: bool)
    ensures
        r == all_rendered(registry::items_view(items@)),
{
    let ghost all = registry::items_view(items@);
    let mut i: usize = 0;
    while i < items.len()
        invariant
            i <= items@.len(),
            all == registry::items_view(items@),
            forall|k: int| 0 <= k < i ==> #[trigger] all[k] is Rendered,
        decreases items@.len() - i,
    {
        proof {
            assert(all[i as int] == items@[i as int]@);
        }
        match &items[i] {
            PipelineData::Rendered(_) => {},
            _ => {
                return false;
            },
        }
        i = i + 1;
    }
    true
}

fn texts_of(items: &Vec<PipelineData>) -> (r: Vec<String>)
    ensures
        text::texts(r@) == rendered_texts(registry::items_view(items@)),
        r@.len() == items@.len(),
{
    let ghost all = rendered_texts(registry::items_view(items@));
    let mut out: Vec<String> = Vec::new();
    let mut i: usize = 0;
    while i < items.len()
        invariant
            i <= items@.len(),
            out@.len() == i,
            all == rendered_texts(registry::items_view(items@)),
            forall|k: int| 0 <= k < i ==> (#[trigger] out@[k])@ == all[k],
        decreases items@.len() - i,
    {
        proof {
            assert(registry::items_view(items@)[i as int] == items@[i as int]@);
        }
        match &items[i] {
            PipelineData::Rendered(s) => {
                out.push(s.clone());
            },
            _ => {
                out.push(String::new());
                proof {
                    assert(out@[i as int]@ =~= Seq::empty());
                }
            },
        }
        i = i + 1;
    }
    proof {
        assert(text::texts(out@) =~= all);
    }
    out
}

/// The value that a pipeline reports.
pub fn report(items: Vec<PipelineData>) -> (r: PipelineData)
    ensures
        r@ == reported(registry::items_view(items@)),
{
    let ghost all = registry::items_view(items@);
    if items.len() > 0 && every_rendered(&items) {
        let texts = texts_of(&items);
        proof {
            assert(text::texts(texts@).take(texts@.len() as int) =~= text::texts(texts@));
        }
        return PipelineData::Rendered(text::join(&texts, texts.len(), "\n"));
    }
    if items.len() == 0 {
        return PipelineData::Empty;
    }
    if items.len() == 1 {
        proof {
            assert(all[0] == items@[0]@);
        }
        return items[0].clone();
    }
    let mut values: Vec<Value> = Vec::new();
    let mut i: usize = 0;
    while i < items.len()
        invariant
            i <= items@.len(),
            values@.len() == i,
            all == registry::items_view(items@),
            forall|k: int| 0 <= k < i ==> (#[trigger] values@[k])@ == all[k].value(),
        decreases items@.len() - i,
    {
        proof {
            assert(all[i as int] == items@[i as int]@);
        }
        values.push(items[i].clone().into_value());
        i = i + 1;
    }
    proof {
        assert(crate::value::values_view(values@) =~= stream::as_values(all));
    }
    PipelineData::Value(Value::List(values))
}

/// Collects the items of a last stage into one value.
pub struct CollectingConsumer {
    items: Vec<PipelineData>,
}

impl View for CollectingConsumer {
    type V = Seq<DataView>;

    closed spec fn view(&self) -> Seq<DataView> {
        registry::items_view(self.items@)
    }
}

impl Default for CollectingConsumer {
    fn default() -> (r: Self)
        ensures
            r@ == Seq::<DataView>::empty(),
    {
        CollectingConsumer::new()
    }
}

impl CollectingConsumer {
    pub fn new() -> (r: Self)
        ensures
            r@ == Seq::<DataView>::empty(),
    {
        let r = CollectingConsumer { items: Vec::new() };
        proof {
            assert(r@ =~= Seq::empty());
        }
        r
    }

    /// One item from the last stage.
    pub fn item(&mut self, item: PipelineData)
        ensures
            final(self)@ == old(self)@.push(item@),
    {
        self.items.push(item);
        proof {
            assert(self@ =~= old(self)@.push(item@));
        }
    }

    /// End of stream: the value this pipeline reports.
    pub fn finish(&mut self) -> (r: PipelineData)
        ensures
            r@ == reported(old(self)@),
            final(self)@ == Seq::<DataView>::empty(),
    {
        let mut items: Vec<PipelineData> = Vec::new();
        std::mem::swap(&mut items, &mut self.items);
        proof {
            assert(self@ =~= Seq::empty());
        }
        report(items)
    }
}

/// A line on its way: the pipelines still to run, the one that runs, the
/// results of those that completed, and the error that stopped a later one.
pub struct LineRun {
    /// The pipelines still to run, the next one last.
    pub rest: Vec<Pipeline>,
    pub run: PipelineRun,
    /// The redirects of the pipeline, until its targets are resolved and its
    /// input is read.
    pub pending: Option<Redirects>,
    /// Where the result of the pipeline goes in place of being reported.
    pub to: Option<Destination>,
    pub results: Vec<PipelineData>,
    pub error: Option<ShellError>,
    pub over: bool,
}

#[verifier::ext_equal]
pub struct LineRunView {
    pub rest: Seq<PipelineView>,
    pub run: RunView,
    pub pending: Option<RedirectsView>,
    pub to: Option<DestinationView>,
    pub results: Seq<DataView>,
    pub error: Option<ErrorView>,
    pub over: bool,
}

pub open spec fn pipelines_view(pipelines: Seq<Pipeline>) -> Seq<PipelineView> {
    pipelines.map_values(|p: Pipeline| p@)
}

pub open spec fn opt_redirects(r: Option<Redirects>) -> Option<RedirectsView> {
    match r {
        Some(r) => Some(r@),
        None => None,
    }
}

impl View for LineRun {
    type V = LineRunView;

    open spec fn view(&self) -> LineRunView {
        LineRunView {
            rest: pipelines_view(self.rest@),
            run: self.run@,
            pending: opt_redirects(self.pending),
            to: redirect::opt_destination(self.to),
            results: registry::items_view(self.results@),
            error: pipeline::failure_view(self.error),
            over: self.over,
        }
    }
}

/// Calls that can be run: each has words.
pub open spec fn runnable(calls: Seq<CallView>) -> bool {
    forall|i: int| 0 <= i < calls.len() ==> (#[trigger] calls[i]).words.len() > 0
}

impl LineRunView {
    pub open spec fn wf(self) -> bool {
        &&& self.run.wf()
        &&& self.pending is Some ==> self.run.unstarted()
        &&& forall|i: int| 0 <= i < self.rest.len() ==> runnable((#[trigger] self.rest[i]).calls)
    }

    /// The line with the next pipeline begun, or over where there is none. The
    /// steps are counted on, so that no two requests of a line are alike.
    pub open spec fn moved_on(self) -> LineRunView {
        if self.rest.len() == 0 {
            LineRunView { over: true, ..self }
        } else {
            let next = self.rest.last();
            LineRunView {
                run: RunView { step: self.run.step, ..pipeline::begun(next.calls) },
                rest: self.rest.drop_last(),
                pending: if next.redirects == RedirectsView::none() {
                    None
                } else {
                    Some(next.redirects)
                },
                to: None,
                ..self
            }
        }
    }

    /// The line with the redirects of its pipeline in place.
    pub open spec fn redirected(
        self,
        input: Option<ValueView>,
        to: Option<DestinationView>,
    ) -> LineRunView {
        LineRunView {
            run: match input {
                Some(v) => pipeline::fed(self.run, v),
                None => self.run,
            },
            pending: None,
            to,
            ..self
        }
    }

    /// The line after its pipeline reported a result.
    pub open spec fn with_result(self, d: DataView) -> LineRunView {
        LineRunView { results: self.results.push(d), ..self }.moved_on()
    }

    /// The line after an error stopped it.
    pub open spec fn stopped(self, e: ErrorView) -> LineRunView {
        LineRunView { error: Some(e), over: true, ..self }
    }

    /// The line after its pipeline ended: an error stops it.
    pub open spec fn settled(self) -> LineRunView {
        match self.run.failure {
            Some(e) => self.stopped(e),
            None => self,
        }
    }
}

/// A line at its start.
pub open spec fn line_begun(pipelines: Seq<PipelineView>) -> LineRunView {
    LineRunView {
        rest: pipelines.reverse(),
        run: pipeline::begun(Seq::empty()),
        pending: None,
        to: None,
        results: Seq::empty(),
        error: None,
        over: false,
    }.moved_on()
}

/// Where a line stands after a round of its pipeline.
pub enum Turn {
    /// A stage needs an answer.
    Need(Query),
    /// Something moved; there may be more to do at once.
    Moved,
    /// Only commands of the host can move the pipeline on.
    Waiting,
    /// The pipeline completed, and its result is to be reported.
    Complete,
    /// The pipeline completed, its result was written to its target, and the
    /// next one has begun.
    Written,
    /// The line is over.
    Over,
}

/// Completed results stay: whatever a later pipeline does, the results of the
/// earlier ones are kept, in order, and an error stops the line.
pub proof fn results_are_kept(line: LineRunView, d: DataView)
    ensures
        line.results.is_prefix_of(line.with_result(d).results),
        line.settled().results == line.results,
        line.run.failure is Some ==> line.settled().over && line.settled().error
            == line.run.failure,
{
}

/// A line before and after its redirects are put in place.
pub open spec fn opens(
    was: LineRunView,
    after: LineRunView,
    turn: Turn,
    r: RedirectsView,
    env: EnvView,
) -> bool {
    match redirect::opened(r, was.run.step, env) {
        Err(StopView::Need(q)) => turn matches Turn::Need(x) && x@ == q && after == was,
        Err(StopView::Fail(e)) => turn is Over && after == was.stopped(e),
        Ok((input, to)) => turn is Moved && after == was.redirected(input, to),
    }
}

/// A line before and after the result of its pipeline, which is to go to a
/// target, is written.
pub open spec fn writes(
    next: LineRunView,
    after: LineRunView,
    turn: Turn,
    to: DestinationView,
    env: EnvView,
) -> bool {
    match redirect::stored(
        to,
        redirect::whole(next.run.yields, next.run.out),
        next.run.step,
        env,
    ) {
        Err(StopView::Need(q)) => turn matches Turn::Need(x) && x@ == q && after == next,
        Err(StopView::Fail(e)) => turn is Over && after == next.stopped(e),
        Ok(()) => turn is Written && after == next.with_result(DataView::Empty),
    }
}

/// A line before and after a turn: its redirects are put in place first, then
/// come the rounds of its pipeline.
pub open spec fn advanced(
    was: LineRunView,
    after: LineRunView,
    turn: Turn,
    env: EnvView,
) -> bool {
    let goal = pipeline::round_from(was.run, was.run.turn as int, env);
    let next = LineRunView { run: goal.run, ..was };
    if was.over {
        turn is Over && after == was
    } else if was.pending is Some {
        opens(was, after, turn, was.pending->Some_0, env)
    } else {
        match goal.need {
            Some(q) => turn matches Turn::Need(x) && x@ == q && after == next,
            None => if goal.run.finished() {
                if goal.run.failure is Some {
                    turn is Over && after == next.settled()
                } else {
                    match was.to {
                        Some(to) => writes(next, after, turn, to, env),
                        None => turn is Complete && after == next,
                    }
                }
            } else {
                &&& after == next
                &&& turn == (if goal.moved {
                    Turn::Moved
                } else {
                    Turn::Waiting
                })
            },
        }
    }
}

/// A result is written once, and only where every command of the pipeline ended
/// without an error; it is then reported as nothing.
pub proof fn failures_write_nothing(
    before: LineRunView,
    after: LineRunView,
    turn: Turn,
    env: EnvView,
)
    requires
        advanced(before, after, turn, env),
        turn is Written || (turn matches Turn::Need(q) && q@ is WriteTo && before.pending is None
            && pipeline::round_from(before.run, before.run.turn as int, env).need is None),
    ensures
        ({
            let run = pipeline::round_from(before.run, before.run.turn as int, env).run;
            &&& run.finished()
            &&& run.failure is None
        }),
        turn is Written ==> after.results == before.results.push(DataView::Empty),
{
}

/// A line without commands of the host never waits: until it is over, every turn
/// moves something, completes a pipeline or asks for an answer. A round starts
/// with the first stage, or with the one that asked.
pub proof fn built_in_lines_never_wait(
    was: LineRunView,
    after: LineRunView,
    turn: Turn,
    asked: EnvView,
    env: EnvView,
)
    requires
        was.wf(),
        advanced(was, after, turn, env),
        forall|i: int| 0 <= i < was.run.stages.len() ==> !(#[trigger] was.run.stages[i] is Outside),
        was.run.turn == 0 || (was.run.turn < was.run.stages.len() && pipeline::planned(
            was.run,
            was.run.turn as int,
            asked,
        ) is Err),
    ensures
        !(turn is Waiting),
{
    let m = was.run;
    let goal = pipeline::round_from(m, m.turn as int, env);
    if turn is Waiting {
        assert(!goal.moved && goal.need is None && !goal.run.finished());
        if m.turn > 0 {
            pipeline::a_stage_that_asked_goes_on(m, m.turn as int, asked, env);
        } else if !m.finished() {
            pipeline::built_in_runs_never_stall(m, env);
        } else {
            pipeline::idle_rounds_find_all_blocked(m, 0, env);
        }
    }
}

impl LineRun {
    /// A line that is about to run.
    pub fn new(pipelines: Vec<Pipeline>) -> (r: Self)
        requires
            forall|i: int|
                0 <= i < pipelines@.len() ==> runnable((#[trigger] pipelines@[i])@.calls),
        ensures
            r@ == line_begun(pipelines_view(pipelines@)),
            r@.wf(),
    {
        let ghost views = pipelines_view(pipelines@);
        let mut source = pipelines;
        let mut rest: Vec<Pipeline> = Vec::new();
        let ghost all = source@;
        proof {
            assert(pipelines_view(rest@) + pipelines_view(source@).reverse() =~= views.reverse());
        }
        while source.len() > 0
            invariant
                pipelines_view(rest@) + pipelines_view(source@).reverse() == views.reverse(),
            decreases source@.len(),
        {
            let ghost before = pipelines_view(rest@);
            let ghost left = pipelines_view(source@);
            match source.pop() {
                Some(p) => {
                    let ghost pv = p@;
                    rest.push(p);
                    proof {
                        assert(pipelines_view(rest@) =~= before.push(pv));
                        let fewer = pipelines_view(source@);
                        assert(left =~= fewer.push(pv));
                        assert(left.reverse() =~= seq![pv] + fewer.reverse());
                        assert(before.push(pv) + fewer.reverse() =~= before + left.reverse());
                    }
                },
                None => {},
            }
        }
        proof {
            assert(pipelines_view(source@).reverse() =~= Seq::empty());
            assert(pipelines_view(rest@) =~= views.reverse());
            assert forall|i: int| 0 <= i < views.len() implies runnable(
                (#[trigger] views.reverse()[i]).calls,
            ) by {
                assert(views[views.len() - 1 - i] == all[views.len() - 1 - i]@);
            }
        }
        let none: Vec<Call> = Vec::new();
        proof {
            assert(ast::calls_view(none@) =~= Seq::empty());
        }
        let mut r = LineRun {
            rest,
            run: PipelineRun::new(none),
            pending: None,
            to: None,
            results: Vec::new(),
            error: None,
            over: false,
        };
        proof {
            assert(r@.results =~= Seq::empty());
        }
        r.move_on();
        r
    }

    fn move_on(&mut self)
        requires
            old(self)@.wf(),
        ensures
            final(self)@ == old(self)@.moved_on(),
            final(self)@.wf(),
    {
        let ghost was = self@;
        match self.rest.pop() {
            Some(next) => {
                let ghost pv = next@;
                let calls = next.calls;
                let redirects = next.redirects;
                let step: u64 = self.run.step;
                proof {
                    assert(was.rest.last() == pv);
                    assert(runnable(was.rest[was.rest.len() - 1].calls));
                    assert forall|i: int| 0 <= i < calls@.len() implies (
                    #[trigger] calls@[i])@.words.len() > 0 by {
                        assert(pv.calls[i] == calls@[i]@);
                    }
                }
                self.run = PipelineRun::new(calls);
                let ghost fresh = self.run@;
                self.run.step = step;
                proof {
                    assert(self.run@ =~= RunView { step, ..fresh });
                }
                self.to = None;
                if redirects.input.is_none() && redirects.output.is_none() {
                    self.pending = None;
                } else {
                    self.pending = Some(redirects);
                }
                proof {
                    assert(self@.rest =~= was.rest.drop_last());
                    assert(self@ =~= was.moved_on());
                    assert forall|i: int| 0 <= i < self@.rest.len() implies runnable(
                        (#[trigger] self@.rest[i]).calls,
                    ) by {
                        assert(runnable(was.rest[i].calls));
                    }
                }
            },
            None => {
                self.over = true;
                proof {
                    assert(self@.rest =~= was.rest);
                    assert(self@ =~= was.moved_on());
                }
            },
        }
    }

    fn stop(&mut self, e: ShellError)
        requires
            old(self)@.wf(),
        ensures
            final(self)@ == old(self)@.stopped(e@),
            final(self)@.wf(),
            final(self).run == old(self).run,
    {
        let ghost was = self@;
        self.error = Some(e);
        self.over = true;
        proof {
            assert(self@ =~= was.stopped(e@));
        }
    }

    /// Resolve the targets of the pipeline, and read what it reads.
    fn open(&mut self, redirects: Redirects, env: &Env) -> (r: Turn)
        requires
            old(self)@.wf(),
            old(self)@.run.unstarted(),
            old(self).pending is None,
        ensures
            ({
                let before = LineRunView { pending: Some(redirects@), ..old(self)@ };
                opens(before, final(self)@, r, redirects@, env@)
            }),
            final(self)@.wf(),
    {
        let ghost was = LineRunView { pending: Some(redirects@), ..self@ };
        match redirect::open(&redirects, self.run.step, env) {
            Err(Stop::Need(q)) => {
                self.pending = Some(redirects);
                proof {
                    assert(self@ =~= was);
                }
                Turn::Need(q)
            },
            Err(Stop::Fail(e)) => {
                self.pending = Some(redirects);
                proof {
                    assert(self@ =~= was);
                }
                self.stop(e);
                Turn::Over
            },
            Ok((input, to)) => {
                let ghost iv = redirect::opening(Ok((input, to)))->Ok_0.0;
                let ghost tv = redirect::opt_destination(to);
                match input {
                    Some(v) => {
                        self.run.feed(v);
                    },
                    None => {},
                }
                self.to = to;
                proof {
                    assert(self@ =~= was.redirected(iv, tv));
                }
                Turn::Moved
            },
        }
    }

    /// Write the result of the pipeline that completed to its target.
    fn write(&mut self, to: Destination, env: &Env) -> (r: Turn)
        requires
            old(self)@.wf(),
            old(self).to is None,
        ensures
            writes(
                (LineRunView { to: Some(to@), ..old(self)@ }),
                final(self)@,
                r,
                to@,
                env@,
            ),
            final(self)@.wf(),
    {
        let ghost was = LineRunView { to: Some(to@), ..self@ };
        let v = redirect::whole_value(&self.run);
        let done = redirect::store(&to, v, self.run.step, env);
        self.to = Some(to);
        proof {
            assert(self@ =~= was);
        }
        match done {
            Err(Stop::Need(q)) => Turn::Need(q),
            Err(Stop::Fail(e)) => {
                self.stop(e);
                Turn::Over
            },
            Ok(()) => {
                self.record(PipelineData::Empty);
                Turn::Written
            },
        }
    }

    /// Put the redirects of the current pipeline in place, or run one round of it.
    pub fn advance(&mut self, env: &Env) -> (r: Turn)
        requires
            old(self)@.wf(),
            countable(env@.entries),
        ensures
            advanced(old(self)@, final(self)@, r, env@),
            final(self)@.wf(),
    {
        if self.over {
            return Turn::Over;
        }
        match self.pending.take() {
            Some(redirects) => {
                return self.open(redirects, env);
            },
            None => {},
        }
        let round = self.run.round(env);
        match round {
            Round::Need(q) => Turn::Need(q),
            Round::Over { moved } => {
                if self.run.is_finished() {
                    match &self.run.failure {
                        Some(e) => {
                            let e = e.clone();
                            self.stop(e);
                            Turn::Over
                        },
                        None => match self.to.take() {
                            Some(to) => self.write(to, env),
                            None => Turn::Complete,
                        },
                    }
                } else if moved {
                    Turn::Moved
                } else {
                    Turn::Waiting
                }
            },
        }
    }

    /// Does what comes out of the pipeline go to a target, rather than to the
    /// pane?
    pub fn is_redirected(&self) -> (r: bool)
        ensures
            r == (match self@.pending {
                Some(p) => p.output is Some,
                None => self@.to is Some,
            }),
    {
        match &self.pending {
            Some(r) => r.output.is_some(),
            None => self.to.is_some(),
        }
    }

    /// Take the result of the pipeline that completed, and go on with the next.
    pub fn record(&mut self, result: PipelineData)
        requires
            old(self)@.wf(),
        ensures
            final(self)@ == old(self)@.with_result(result@),
            final(self)@.wf(),
    {
        let ghost was = self@;
        self.results.push(result);
        proof {
            assert(self@.results =~= was.results.push(result@));
            assert(self@ =~= LineRunView { results: was.results.push(result@), ..was });
        }
        self.move_on();
    }

    /// Report what came out of the pipeline as one value, and go on with the
    /// next.
    pub fn record_collected(&mut self)
        requires
            old(self)@.wf(),
        ensures
            final(self)@ == old(self)@.with_result(reported(old(self)@.run.out)),
            final(self)@.wf(),
    {
        let mut items: Vec<PipelineData> = Vec::new();
        let mut i: usize = 0;
        while i < self.run.out.len()
            invariant
                i <= self.run.out@.len(),
                items@.len() == i,
                forall|k: int| 0 <= k < i ==> (#[trigger] items@[k])@ == self.run.out@[k]@,
            decreases self.run.out@.len() - i,
        {
            items.push(self.run.out[i].clone());
            i = i + 1;
        }
        proof {
            assert(registry::items_view(items@) =~= self@.run.out);
        }
        let result = report(items);
        self.record(result);
    }
}

} // verus!
