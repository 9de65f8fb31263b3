//! Runs a pipeline's stages side by side, joined by bounded channels.
//!
//! There is deliberately no spawner: a run owns its stages and polls each of
//! them in turn until it waits, so there is one code path and the interleaving
//! is deterministic. A stage that an outside command runs is left alone; the
//! host moves its items with `outside_recv`, `outside_send` and
//! `outside_finish`.

use crate::ask::{Query, QueryView, Replies, ReplySeq, Stop, StopView};
use crate::ast::{Call, CallView};
use crate::builtins::collect;
use crate::builtins::streaming;
use crate::builtins::streaming::{Work, WorkView};
use crate::builtins::Builtin;
use crate::chan;
use crate::chan::{Channel, ChannelView, Received, Sent};
use crate::error::{ErrorView, ShellError, Span};
use crate::eval;
use crate::expr::{Scope, ScopeSeq};
use crate::registry;
use crate::registry::{CommandRegistry, DataView, EntrySeq, PipelineData};
use crate::signature::{BoundCall, BoundCallView};
use crate::stream;
use crate::value;
use crate::value::{Value, ValueView};
use vstd::prelude::*;

verus! {

broadcast use crate::value::value_view_cases;

/// Items a stage may buffer before its producer is made to wait. The bound
/// is what makes memory usage independent of how fast a producer runs.
pub const STAGE_BUFFER: usize = 64;

/// One pipeline stage.
pub enum Stage {
    /// Not polled yet.
    Waiting(Call),
    /// A collecting command with the values it was handed so far.
    Collecting(Builtin, BoundCall, Vec<Value>),
    /// Output that is on its way downstream, and how much of it went.
    Sending(Vec<PipelineData>, usize),
    /// A streaming command with the item that it could not hand on yet.
    Streaming(Work, Span, Option<PipelineData>),
    /// A command of the host.
    Outside(u64, BoundCall),
    Done,
}

/// What a stage's items stand for where a pipeline's result is taken as one
/// value.
#[derive(Clone, Copy, Debug, PartialEq, Eq, Structural)]
pub enum Yield {
    /// Each item for itself: a single one stays what it is.
    Single,
    /// The items of a list, however many there are.
    Batch,
    /// What the items of the stage's input stand for.
    Same,
}

pub enum StageView {
    Waiting(CallView),
    Collecting(Builtin, BoundCallView, Seq<ValueView>),
    Sending(Seq<DataView>),
    Streaming(WorkView, Span, Option<DataView>),
    Outside(u64, BoundCallView),
    Done,
}

impl View for Stage {
    type V = StageView;

    open spec fn view(&self) -> StageView {
        match *self {
            Stage::Waiting(call) => StageView::Waiting(call@),
            Stage::Collecting(which, call, values) => StageView::Collecting(
                which,
                call@,
                value::values_view(values@),
            ),
            Stage::Sending(queue, next) => StageView::Sending(remaining(queue@, next)),
            Stage::Streaming(work, span, None) => StageView::Streaming(work@, span, None),
            Stage::Streaming(work, span, Some(d)) => StageView::Streaming(
                work@,
                span,
                Some(d@),
            ),
            Stage::Outside(handle, call) => StageView::Outside(handle, call@),
            Stage::Done => StageView::Done,
        }
    }
}

/// What is left of a queue.
pub open spec fn remaining(queue: Seq<PipelineData>, next: usize) -> Seq<DataView> {
    if next <= queue.len() {
        registry::items_view(queue).skip(next as int)
    } else {
        Seq::empty()
    }
}

/// What the stages of a run are given.
pub struct Env<'a> {
    pub registry: &'a CommandRegistry,
    pub scope: &'a Scope,
    /// Render width (pane cols / terminal width).
    pub width: u16,
    pub replies: &'a Replies,
}

pub struct EnvView {
    pub entries: EntrySeq,
    pub scope: ScopeSeq,
    pub width: u16,
    pub replies: ReplySeq,
}

impl<'a> View for Env<'a> {
    type V = EnvView;

    open spec fn view(&self) -> EnvView {
        EnvView {
            entries: self.registry@,
            scope: self.scope@,
            width: self.width,
            replies: self.replies@,
        }
    }
}

/// A pipeline on its way: its stages, the channel before each of them and the
/// one behind the last, the first error, and what came out so far.
pub struct PipelineRun {
    pub stages: Vec<Stage>,
    pub links: Vec<Channel>,
    /// What the items of each stage stand for.
    pub yields: Vec<Yield>,
    pub failure: Option<ShellError>,
    pub out: Vec<PipelineData>,
    /// The stage to poll next.
    pub turn: usize,
    /// Counts the steps, to tell their requests to the host apart.
    pub step: u64,
}

#[verifier::ext_equal]
pub struct RunView {
    pub stages: Seq<StageView>,
    pub links: Seq<ChannelView>,
    pub yields: Seq<Yield>,
    pub failure: Option<ErrorView>,
    pub out: Seq<DataView>,
    pub turn: nat,
    pub step: u64,
}

pub open spec fn stages_view(stages: Seq<Stage>) -> Seq<StageView> {
    stages.map_values(|s: Stage| s@)
}

pub open spec fn links_view(links: Seq<Channel>) -> Seq<ChannelView> {
    links.map_values(|c: Channel| c@)
}

pub open spec fn failure_view(failure: Option<ShellError>) -> Option<ErrorView> {
    match failure {
        Some(e) => Some(e@),
        None => None,
    }
}

impl View for PipelineRun {
    type V = RunView;

    open spec fn view(&self) -> RunView {
        RunView {
            stages: stages_view(self.stages@),
            links: links_view(self.links@),
            yields: self.yields@,
            failure: failure_view(self.failure),
            out: registry::items_view(self.out@),
            turn: self.turn as nat,
            step: self.step,
        }
    }
}

/// A stage that can be polled: a call has words, and a command that collects
/// is one that does.
pub open spec fn sound_stage(s: StageView) -> bool {
    match s {
        StageView::Waiting(call) => call.words.len() > 0,
        StageView::Collecting(which, _, _) => !collect::streams(which),
        _ => true,
    }
}

impl RunView {
    /// Nothing comes in before the first stage, and what comes out behind the
    /// last is read. A stage has ended exactly where it reads its input no more,
    /// and exactly where it sends no more.
    pub open spec fn linked(self) -> bool {
        &&& self.links[0].sender_gone
        &&& !self.links.last().receiver_gone
        &&& forall|k: int|
            0 <= k < self.stages.len() ==> ((#[trigger] self.stages[k]) is Done
                <==> self.links[k].receiver_gone)
        &&& forall|k: int|
            0 <= k < self.stages.len() ==> ((#[trigger] self.stages[k]) is Done <==> self.links[k
                + 1].sender_gone)
    }

    /// A channel before each stage and one behind the last, none of them
    /// holding more than it may.
    pub open spec fn wf(self) -> bool {
        &&& self.links.len() == self.stages.len() + 1
        &&& self.linked()
        &&& self.yields.len() == self.stages.len()
        &&& self.turn <= self.stages.len()
        &&& forall|i: int|
            0 <= i < self.links.len() ==> (#[trigger] self.links[i]).bounded()
                && self.links[i].capacity > 0
        &&& forall|i: int| 0 <= i < self.stages.len() ==> sound_stage(#[trigger] self.stages[i])
    }

    /// Has no stage been polled yet?
    pub open spec fn unstarted(self) -> bool {
        forall|k: int| 0 <= k < self.stages.len() ==> #[trigger] self.stages[k] is Waiting
    }

    pub open spec fn with_stage(self, k: int, s: StageView) -> RunView {
        RunView { stages: self.stages.update(k, s), ..self }
    }

    /// The run after stage `k` turned into another.
    pub open spec fn becoming(self, k: int, s: StageView, y: Yield) -> RunView {
        RunView { yields: self.yields.update(k, y), ..self.with_stage(k, s) }
    }

    /// The run after stage `k` took the next item off its input.
    pub open spec fn received(self, k: int) -> RunView {
        RunView { links: self.links.update(k, self.links[k].without_first()), ..self }
    }

    /// The run after stage `k` sent an item.
    pub open spec fn sent(self, k: int, d: DataView) -> RunView {
        RunView { links: self.links.update(k + 1, self.links[k + 1].with_item(d)), ..self }
    }

    /// The run after stage `k` ended: it reads no more, which stops the stage
    /// before it, and sends no more, which ends the input of the one behind.
    pub open spec fn closed(self, k: int) -> RunView {
        RunView {
            stages: self.stages.update(k, StageView::Done),
            links: self.links.update(k, self.links[k].unread()).update(
                k + 1,
                self.links[k + 1].unsent(),
            ),
            ..self
        }
    }

    /// The run after stage `k` failed. The first error wins.
    pub open spec fn failed(self, k: int, e: ErrorView) -> RunView {
        RunView {
            failure: if self.failure is None {
                Some(e)
            } else {
                self.failure
            },
            ..self.closed(k)
        }
    }

    /// The run after stage `k` ended, with an error or without.
    pub open spec fn ended(self, k: int, error: Option<ErrorView>) -> RunView {
        match error {
            Some(e) => self.failed(k, e),
            None => self.closed(k),
        }
    }

    pub open spec fn ticked(self) -> RunView {
        RunView { step: self.step.saturating_add(1), ..self }
    }

    /// Did every stage end, and was everything read that came out?
    pub open spec fn finished(self) -> bool {
        &&& forall|i: int| 0 <= i < self.stages.len() ==> #[trigger] self.stages[i] is Done
        &&& self.links.last().items.len() == 0
    }
}

/// What a stage does next.
pub enum Plan {
    /// Wait.
    Blocked,
    /// End.
    Close,
    /// End with an error.
    Fail(ShellError),
    /// Go on as another stage, whose items stand for this.
    Become(Stage, Yield),
    /// Add the next item to the collected ones.
    Take,
    /// Take the next item and hold what is to be sent on for it.
    Pass(Option<PipelineData>),
    /// Send the next item of the queue.
    SendQueued,
    /// Send the item that is held.
    SendHeld,
}

pub enum PlanView {
    Blocked,
    Close,
    Fail(ErrorView),
    Become(StageView, Yield),
    Take,
    Pass(Option<DataView>),
    SendQueued,
    SendHeld,
}

impl View for Plan {
    type V = PlanView;

    open spec fn view(&self) -> PlanView {
        match *self {
            Plan::Blocked => PlanView::Blocked,
            Plan::Close => PlanView::Close,
            Plan::Fail(e) => PlanView::Fail(e@),
            Plan::Become(s, y) => PlanView::Become(s@, y),
            Plan::Take => PlanView::Take,
            Plan::Pass(None) => PlanView::Pass(None),
            Plan::Pass(Some(d)) => PlanView::Pass(Some(d@)),
            Plan::SendQueued => PlanView::SendQueued,
            Plan::SendHeld => PlanView::SendHeld,
        }
    }
}

/// Has a `head` what it was asked for?
pub open spec fn sated(work: WorkView) -> bool {
    work matches WorkView::Head(limit, taken) && taken >= limit
}

/// A streaming command after one of its items was sent.
pub open spec fn counted(work: WorkView) -> WorkView {
    match work {
        WorkView::Head(limit, taken) => WorkView::Head(limit, taken.saturating_add(1)),
        other => other,
    }
}

/// What a stage with something to send does: it ends where nobody reads, and
/// waits where there is no room.
pub open spec fn send_plan(ch: ChannelView, send: PlanView) -> PlanView {
    if ch.receiver_gone {
        PlanView::Close
    } else if ch.open() {
        send
    } else {
        PlanView::Blocked
    }
}

/// A plan for a result that may be missing.
pub open spec fn plan_result(r: Result<Plan, Query>) -> Result<PlanView, QueryView> {
    match r {
        Ok(p) => Ok(p@),
        Err(q) => Err(q@),
    }
}

/// What a stage that was not polled yet does.
pub open spec fn entry_plan(call: CallView, env: EnvView) -> Result<PlanView, QueryView> {
    match eval::entered(call, env) {
        Ok((s, y)) => Ok(PlanView::Become(s, y)),
        Err(StopView::Fail(e)) => Ok(PlanView::Fail(e)),
        Err(StopView::Need(q)) => Err(q),
    }
}

fn plan_entry(call: &Call, env: &Env) -> (r: Result<Plan, Query>)
    requires
        call@.words.len() > 0,
        eval::countable(env@.entries),
    ensures
        plan_result(r) == entry_plan(call@, env@),
{
    match eval::enter(call, env) {
        Ok((s, y)) => Ok(Plan::Become(s, y)),
        Err(Stop::Fail(e)) => Ok(Plan::Fail(e)),
        Err(Stop::Need(q)) => Err(q),
    }
}

/// What a command's result stands for once it is sent as items.
pub open spec fn yield_of(data: DataView) -> Yield {
    if data matches DataView::Value(ValueView::List(_)) {
        Yield::Batch
    } else {
        Yield::Single
    }
}

fn yields_as(data: &PipelineData) -> (r: Yield)
    ensures
        r == yield_of(data@),
{
    match data {
        PipelineData::Value(Value::List(_)) => Yield::Batch,
        _ => Yield::Single,
    }
}

/// What a collecting stage does once its input has ended.
pub open spec fn run_plan(
    which: Builtin,
    call: BoundCallView,
    values: Seq<ValueView>,
    first: bool,
    step: u64,
    env: EnvView,
) -> Result<PlanView, QueryView> {
    match collect::ran(
        which,
        call,
        stream::gathered(values, first),
        env.width,
        step,
        env.replies,
    ) {
        Ok(d) => Ok(PlanView::Become(StageView::Sending(stream::flattened(d)), yield_of(d))),
        Err(StopView::Fail(e)) => Ok(PlanView::Fail(e)),
        Err(StopView::Need(q)) => Err(q),
    }
}

fn plan_run(
    which: Builtin,
    call: &BoundCall,
    values: &Vec<Value>,
    first: bool,
    step: u64,
    env: &Env,
) -> (r: Result<Plan, Query>)
    requires
        !collect::streams(which),
    ensures
        plan_result(r) == run_plan(
            which,
            call@,
            value::values_view(values@),
            first,
            step,
            env@,
        ),
{
    let data = stream::gather(value::clone_values(values), first);
    match collect::run(which, call, data, env.width, step, env.replies) {
        Ok(d) => {
            let y = yields_as(&d);
            let items = stream::flatten(d);
            proof {
                assert(registry::items_view(items@).skip(0) =~= registry::items_view(items@));
            }
            Ok(Plan::Become(Stage::Sending(items, 0), y))
        },
        Err(Stop::Fail(e)) => Ok(Plan::Fail(e)),
        Err(Stop::Need(q)) => Err(q),
    }
}

fn plan_send(output: &Channel, send: Plan) -> (r: Plan)
    ensures
        r@ == send_plan(output@, send@),
{
    if output.is_closed() {
        Plan::Close
    } else if output.is_open() {
        send
    } else {
        Plan::Blocked
    }
}

/// What a streaming stage that holds nothing does.
pub open spec fn item_plan(
    work: WorkView,
    span: Span,
    input: ChannelView,
    step: u64,
    env: EnvView,
) -> Result<PlanView, QueryView> {
    if sated(work) {
        Ok(PlanView::Close)
    } else if input.items.len() > 0 {
        match streaming::handled(work, input.items[0], span, step, env.replies) {
            Ok(d) => Ok(PlanView::Pass(d)),
            Err(StopView::Fail(e)) => Ok(PlanView::Fail(e)),
            Err(StopView::Need(q)) => Err(q),
        }
    } else if input.sender_gone {
        Ok(PlanView::Close)
    } else {
        Ok(PlanView::Blocked)
    }
}

fn plan_item(work: &Work, span: Span, input: &Channel, step: u64, env: &Env) -> (r: Result<
    Plan,
    Query,
>)
    ensures
        plan_result(r) == item_plan(work@, span, input@, step, env@),
{
    match work {
        Work::Head(limit, taken) => {
            if *taken >= *limit {
                return Ok(Plan::Close);
            }
        },
        _ => {},
    }
    match input.peek() {
        Some(item) => match work.handle(item, span, step, env.replies) {
            Ok(d) => Ok(Plan::Pass(d)),
            Err(Stop::Fail(e)) => Ok(Plan::Fail(e)),
            Err(Stop::Need(q)) => Err(q),
        },
        None => if input.has_ended() {
            Ok(Plan::Close)
        } else {
            Ok(Plan::Blocked)
        },
    }
}

/// What stage `k` does next, or the query that it needs an answer to.
pub open spec fn planned(m: RunView, k: int, env: EnvView) -> Result<PlanView, QueryView> {
    let input = m.links[k];
    match m.stages[k] {
        StageView::Waiting(call) => if m.failure is Some {
            Ok(PlanView::Close)
        } else {
            entry_plan(call, env)
        },
        StageView::Collecting(which, call, values) => if input.items.len() > 0 {
            Ok(PlanView::Take)
        } else if !input.sender_gone {
            Ok(PlanView::Blocked)
        } else {
            run_plan(which, call, values, k == 0, m.step, env)
        },
        StageView::Sending(items) => if items.len() == 0 {
            Ok(PlanView::Close)
        } else {
            Ok(send_plan(m.links[k + 1], PlanView::SendQueued))
        },
        StageView::Streaming(_, _, Some(_)) => Ok(
            send_plan(m.links[k + 1], PlanView::SendHeld),
        ),
        StageView::Streaming(work, span, None) => item_plan(work, span, input, m.step, env),
        StageView::Outside(_, _) => Ok(PlanView::Blocked),
        StageView::Done => Ok(PlanView::Blocked),
    }
}

/// The run after stage `k` did what it planned.
pub open spec fn performed(m: RunView, k: int, plan: PlanView) -> RunView {
    match plan {
        PlanView::Blocked => m,
        PlanView::Close => m.closed(k).ticked(),
        PlanView::Fail(e) => m.failed(k, e).ticked(),
        PlanView::Become(s, y) => m.becoming(k, s, y).ticked(),
        PlanView::Take => match m.stages[k] {
            StageView::Collecting(which, call, values) => m.received(k).with_stage(
                k,
                StageView::Collecting(which, call, values.push(m.links[k].items[0].value())),
            ).ticked(),
            _ => m,
        },
        PlanView::Pass(d) => match m.stages[k] {
            StageView::Streaming(work, span, _) => m.received(k).with_stage(
                k,
                StageView::Streaming(work, span, d),
            ).ticked(),
            _ => m,
        },
        PlanView::SendQueued => match m.stages[k] {
            StageView::Sending(items) => m.sent(k, items[0]).with_stage(
                k,
                StageView::Sending(items.drop_first()),
            ).ticked(),
            _ => m,
        },
        PlanView::SendHeld => match m.stages[k] {
            StageView::Streaming(work, span, Some(d)) => m.sent(k, d).with_stage(
                k,
                StageView::Streaming(counted(work), span, None),
            ).ticked(),
            _ => m,
        },
    }
}

/// How far a stage is from its end: what it still has to go through, and how
/// much there is to do before it must wait.
pub open spec fn phase(s: StageView) -> nat {
    match s {
        StageView::Waiting(_) => 3,
        StageView::Collecting(_, _, _) => 2,
        StageView::Streaming(_, _, _) => 2,
        StageView::Sending(_) => 1,
        StageView::Outside(_, _) => 1,
        StageView::Done => 0,
    }
}

pub open spec fn left_to_do(m: RunView, k: int) -> nat {
    match m.stages[k] {
        StageView::Collecting(_, _, _) => m.links[k].items.len(),
        StageView::Streaming(_, _, Some(_)) => 2 * m.links[k].items.len() + 1,
        StageView::Streaming(_, _, None) => 2 * m.links[k].items.len(),
        StageView::Sending(items) => items.len(),
        _ => 0,
    }
}

/// A stage that does not wait gets on: it moves towards its end, or has less to
/// do before it must wait. So polling a stage always comes to an end.
pub proof fn steps_make_progress(m: RunView, k: int, env: EnvView)
    requires
        0 <= k < m.stages.len(),
        m.links.len() == m.stages.len() + 1,
    ensures
        match planned(m, k, env) {
            Ok(PlanView::Blocked) => true,
            Ok(plan) => {
                let n = performed(m, k, plan);
                &&& n.stages.len() == m.stages.len()
                &&& n.links.len() == m.links.len()
                &&& phase(n.stages[k]) < phase(m.stages[k]) || (phase(n.stages[k]) == phase(
                    m.stages[k],
                ) && left_to_do(n, k) < left_to_do(m, k))
            },
            Err(_) => true,
        },
{
    match m.stages[k] {
        StageView::Waiting(call) => {
            eval::entering_leaves_waiting(call, env);
        },
        _ => {},
    }
}

/// What polling a stage comes to.
pub struct PollView {
    pub run: RunView,
    pub moved: bool,
    pub need: Option<QueryView>,
}

/// Stage `k` polled until it waits, ends, or needs an answer.
pub open spec fn polled(m: RunView, k: int, env: EnvView) -> PollView
    decreases phase(m.stages[k]), left_to_do(m, k),
    when 0 <= k < m.stages.len() && m.links.len() == m.stages.len() + 1
    via polled_decreases
{
    match planned(m, k, env) {
        Err(q) => PollView { run: m, moved: false, need: Some(q) },
        Ok(PlanView::Blocked) => PollView { run: m, moved: false, need: None },
        Ok(plan) => {
            let rest = polled(performed(m, k, plan), k, env);
            PollView { run: rest.run, moved: true, need: rest.need }
        },
    }
}

#[via_fn]
proof fn polled_decreases(m: RunView, k: int, env: EnvView) {
    steps_make_progress(m, k, env);
}

/// A step touches its own stage and the two channels beside it, and nothing
/// else of the others.
pub proof fn steps_are_local(m: RunView, k: int, env: EnvView, other: int)
    requires
        m.wf(),
        0 <= k < m.stages.len(),
        planned(m, k, env) is Ok,
    ensures
        ({
            let n = performed(m, k, planned(m, k, env)->Ok_0);
            &&& 0 <= other < m.stages.len() && other != k ==> n.stages[other] == m.stages[other]
            &&& 0 <= other < m.links.len() && other != k && other != k + 1 ==> n.links[other]
                == m.links[other]
            &&& 0 <= other < m.yields.len() && other != k ==> n.yields[other] == m.yields[other]
            &&& n.out == m.out
        }),
{
}

/// A step keeps the run in order; in particular no channel ever holds more
/// than its capacity, however fast a producer runs.
pub proof fn steps_keep_bounds(m: RunView, k: int, env: EnvView)
    requires
        m.wf(),
        0 <= k < m.stages.len(),
        planned(m, k, env) is Ok,
    ensures
        performed(m, k, planned(m, k, env)->Ok_0).wf(),
{
    let plan = planned(m, k, env)->Ok_0;
    let n = performed(m, k, plan);
    match m.stages[k] {
        StageView::Waiting(call) => {
            eval::entering_leaves_waiting(call, env);
        },
        _ => {},
    }
    assert(sound_stage(n.stages[k]));
    assert forall|i: int| 0 <= i < n.stages.len() implies sound_stage(#[trigger] n.stages[i]) by {
        if i != k {
            assert(n.stages[i] == m.stages[i]);
        }
    }
    assert forall|i: int| 0 <= i < n.links.len() implies (#[trigger] n.links[i]).bounded()
        && n.links[i].capacity > 0 by {
        assert(m.links[i].bounded() && m.links[i].capacity > 0);
    }
}

/// The first error wins: once a run has failed, no step changes the error.
pub proof fn first_failure_stands(m: RunView, k: int, env: EnvView)
    requires
        0 <= k < m.stages.len(),
        planned(m, k, env) is Ok,
        m.failure is Some,
    ensures
        performed(m, k, planned(m, k, env)->Ok_0).failure == m.failure,
{
}

/// A stage that has not started when the run fails never does.
pub proof fn failure_stops_waiting_stages(m: RunView, k: int, env: EnvView)
    requires
        0 <= k < m.stages.len(),
        m.links.len() == m.stages.len() + 1,
        m.stages[k] is Waiting,
        m.failure is Some,
    ensures
        planned(m, k, env) == Ok::<PlanView, QueryView>(PlanView::Close),
        performed(m, k, PlanView::Close).stages[k] is Done,
{
}

/// While a stage sends, what is in its channel followed by what it still has
/// to send stays the same: nothing is lost, doubled or reordered.
pub proof fn sending_keeps_the_order(m: RunView, k: int, env: EnvView)
    requires
        m.wf(),
        0 <= k < m.stages.len(),
        m.stages[k] is Sending,
        planned(m, k, env) == Ok::<PlanView, QueryView>(PlanView::SendQueued),
    ensures
        ({
            let n = performed(m, k, PlanView::SendQueued);
            &&& n.stages[k] is Sending
            &&& n.links[k + 1].items + n.stages[k]->Sending_0 == m.links[k + 1].items
                + m.stages[k]->Sending_0
        }),
{
    let n = performed(m, k, PlanView::SendQueued);
    let items = m.stages[k]->Sending_0;
    assert(n.links[k + 1].items + items.drop_first() =~= m.links[k + 1].items + items);
}

/// A consumer that goes away stops its producer: whatever a stage has to send
/// to a closed channel, it ends instead, and that is no error.
pub proof fn closed_channels_stop_producers(m: RunView, k: int, env: EnvView)
    requires
        m.wf(),
        0 <= k < m.stages.len(),
        m.links[k + 1].receiver_gone,
        m.stages[k] is Sending || (m.stages[k] matches StageView::Streaming(_, _, held)
            && held is Some),
    ensures
        planned(m, k, env) == Ok::<PlanView, QueryView>(PlanView::Close),
        performed(m, k, PlanView::Close).failure == m.failure,
{
}

/// A `head` that took what it was asked for ends without another item, and so
/// stops even a producer that never would.
pub proof fn head_stops_its_producer(m: RunView, k: int, env: EnvView, limit: usize, span: Span)
    requires
        m.wf(),
        0 <= k < m.stages.len(),
        m.stages[k] == StageView::Streaming(WorkView::Head(limit, limit), span, None),
    ensures
        planned(m, k, env) == Ok::<PlanView, QueryView>(PlanView::Close),
        performed(m, k, PlanView::Close).links[k].receiver_gone,
{
}

pub(crate) proof fn polling_keeps_bounds(m: RunView, k: int, env: EnvView)
    requires
        m.wf(),
        0 <= k < m.stages.len(),
    ensures
        polled(m, k, env).run.wf(),
        polled(m, k, env).run.stages.len() == m.stages.len(),
    decreases phase(m.stages[k]), left_to_do(m, k),
{
    match planned(m, k, env) {
        Ok(PlanView::Blocked) => {},
        Ok(plan) => {
            steps_keep_bounds(m, k, env);
            steps_make_progress(m, k, env);
            polling_keeps_bounds(performed(m, k, plan), k, env);
        },
        Err(_) => {},
    }
}

impl PipelineRun {
    /// A run of some calls. The first stage's input is an already-closed empty
    /// stream.
    pub fn new(calls: Vec<Call>) -> (r: Self)
        requires
            forall|i: int| 0 <= i < calls@.len() ==> (#[trigger] calls@[i])@.words.len() > 0,
        ensures
            r@ == begun(crate::ast::calls_view(calls@)),
            r@.wf(),
    {
        let n: usize = calls.len();
        let ghost views = crate::ast::calls_view(calls@);
        let mut links: Vec<Channel> = Vec::new();
        let mut first = chan::channel(1);
        first.drop_sender();
        links.push(first);
        let mut yields: Vec<Yield> = Vec::new();
        let mut i: usize = 0;
        while i < n
            invariant
                i <= n,
                yields@ == Seq::new(i as nat, |j: int| Yield::Single),
                links@.len() == i + 1,
                links@[0]@ == ChannelView::fresh(1).unsent(),
                forall|j: int|
                    1 <= j < links@.len() ==> (#[trigger] links@[j])@ == ChannelView::fresh(
                        STAGE_BUFFER,
                    ),
            decreases n - i,
        {
            links.push(chan::channel(STAGE_BUFFER));
            yields.push(Yield::Single);
            proof {
                assert(yields@ =~= Seq::new((i + 1) as nat, |j: int| Yield::Single));
            }
            i = i + 1;
        }
        let mut stages: Vec<Stage> = Vec::new();
        let mut rest = calls;
        proof {
            assert(stages_view(stages@) + waiting(crate::ast::calls_view(rest@)).reverse()
                =~= waiting(views).reverse());
        }
        while rest.len() > 0
            invariant
                stages_view(stages@) + waiting(crate::ast::calls_view(rest@)).reverse() == waiting(
                    views,
                ).reverse(),
            decreases rest@.len(),
        {
            let ghost before = stages_view(stages@);
            let ghost left = waiting(crate::ast::calls_view(rest@));
            match rest.pop() {
                Some(call) => {
                    let ghost cv = call@;
                    stages.push(Stage::Waiting(call));
                    proof {
                        assert(stages_view(stages@) =~= before.push(StageView::Waiting(cv)));
                        let fewer = waiting(crate::ast::calls_view(rest@));
                        assert(left =~= fewer.push(StageView::Waiting(cv)));
                        assert(left.reverse() =~= seq![StageView::Waiting(cv)] + fewer.reverse());
                        assert(before.push(StageView::Waiting(cv)) + fewer.reverse() =~= before
                            + left.reverse());
                    }
                },
                None => {},
            }
        }
        let mut turned: Vec<Stage> = Vec::new();
        proof {
            assert(waiting(crate::ast::calls_view(rest@)).reverse() =~= Seq::empty());
            assert(stages_view(stages@) =~= waiting(views).reverse());
            assert(stages_view(turned@) + stages_view(stages@).reverse() =~= waiting(views));
        }
        while stages.len() > 0
            invariant
                stages_view(turned@) + stages_view(stages@).reverse() == waiting(views),
            decreases stages@.len(),
        {
            let ghost before = stages_view(turned@);
            let ghost left = stages_view(stages@);
            match stages.pop() {
                Some(s) => {
                    let ghost sv = s@;
                    turned.push(s);
                    proof {
                        assert(stages_view(turned@) =~= before.push(sv));
                        let fewer = stages_view(stages@);
                        assert(left =~= fewer.push(sv));
                        assert(left.reverse() =~= seq![sv] + fewer.reverse());
                        assert(before.push(sv) + fewer.reverse() =~= before + left.reverse());
                    }
                },
                None => {},
            }
        }
        proof {
            assert(stages_view(stages@).reverse() =~= Seq::empty());
            assert(stages_view(turned@) =~= waiting(views));
        }
        let r = PipelineRun {
            stages: turned,
            links,
            yields,
            failure: None,
            out: Vec::new(),
            turn: 0,
            step: 0,
        };
        proof {
            assert(r@.links =~= begun(views).links);
            assert(r@.yields =~= begun(views).yields);
            assert(r@.out =~= Seq::empty());
            assert forall|j: int| 0 <= j < r@.stages.len() implies sound_stage(
                #[trigger] r@.stages[j],
            ) by {
                assert(views[j] == calls@[j]@);
            }
        }
        r
    }

    /// What stage `k` does next.
    fn plan(&self, k: usize, env: &Env) -> (r: Result<Plan, Query>)
        requires
            self@.wf(),
            k < self@.stages.len(),
            eval::countable(env@.entries),
        ensures
            plan_result(r) == planned(self@, k as int, env@),
    {
        proof {
            assert(self@.stages[k as int] == self.stages@[k as int]@);
            assert(self@.links[k as int] == self.links@[k as int]@);
            assert(self@.links[k + 1] == self.links@[k + 1]@);
            assert(sound_stage(self@.stages[k as int]));
        }
        // The number of channels fits in a `usize`.
        let _links: usize = self.links.len();
        let input = &self.links[k];
        let output = &self.links[k + 1];
        match &self.stages[k] {
            Stage::Waiting(call) => {
                if self.failure.is_some() {
                    return Ok(Plan::Close);
                }
                plan_entry(call, env)
            },
            Stage::Collecting(which, call, values) => {
                if !input.is_empty() {
                    return Ok(Plan::Take);
                }
                if !input.has_ended() {
                    return Ok(Plan::Blocked);
                }
                plan_run(*which, call, values, k == 0, self.step, env)
            },
            Stage::Sending(queue, next) => {
                if *next >= queue.len() {
                    return Ok(Plan::Close);
                }
                Ok(plan_send(output, Plan::SendQueued))
            },
            Stage::Streaming(work, span, held) => {
                if held.is_some() {
                    return Ok(plan_send(output, Plan::SendHeld));
                }
                plan_item(work, *span, input, self.step, env)
            },
            Stage::Outside(_, _) => Ok(Plan::Blocked),
            Stage::Done => Ok(Plan::Blocked),
        }
    }

    fn tick(&mut self)
        ensures
            final(self)@ == old(self)@.ticked(),
    {
        self.step = self.step.saturating_add(1);
        proof {
            assert(self@ =~= old(self)@.ticked());
        }
    }

    fn set_stage(&mut self, k: usize, s: Stage)
        requires
            k < old(self)@.stages.len(),
        ensures
            final(self)@ == old(self)@.with_stage(k as int, s@),
    {
        self.stages.set(k, s);
        proof {
            assert(self@ =~= old(self)@.with_stage(k as int, s@));
        }
    }

    /// Take a stage out of the run, to be put back.
    fn take_stage(&mut self, k: usize) -> (r: Stage)
        requires
            k < old(self)@.stages.len(),
        ensures
            r@ == old(self)@.stages[k as int],
            final(self)@ == old(self)@.with_stage(k as int, StageView::Done),
    {
        let mut s = Stage::Done;
        std::mem::swap(&mut s, &mut self.stages[k]);
        proof {
            assert(self@ =~= old(self)@.with_stage(k as int, StageView::Done));
        }
        s
    }

    fn close(&mut self, k: usize)
        requires
            k < old(self)@.stages.len(),
            old(self)@.links.len() == old(self)@.stages.len() + 1,
        ensures
            final(self)@ == old(self)@.closed(k as int),
    {
        // The number of channels fits in a `usize`.
        let _links: usize = self.links.len();
        let next: usize = k + 1;
        self.links[k].drop_receiver();
        self.links[next].drop_sender();
        self.stages.set(k, Stage::Done);
        proof {
            assert(self@.links =~= old(self)@.closed(k as int).links);
            assert(self@.stages =~= old(self)@.closed(k as int).stages);
        }
    }

    fn receive(&mut self, k: usize) -> (r: Received)
        requires
            k < old(self)@.links.len(),
        ensures
            match r {
                Received::Item(d) => old(self)@.links[k as int].items.len() > 0 && d@ == old(
                    self,
                )@.links[k as int].items[0] && final(self)@ == old(self)@.received(k as int),
                Received::Waiting => old(self)@.links[k as int].items.len() == 0 && !old(
                    self,
                )@.links[k as int].sender_gone && final(self)@ == old(self)@,
                Received::Ended => old(self)@.links[k as int].items.len() == 0 && old(
                    self,
                )@.links[k as int].sender_gone && final(self)@ == old(self)@,
            },
    {
        let ghost was = self@;
        let r = self.links[k].recv();
        proof {
            assert(was.links[k as int] == old(self).links@[k as int]@);
            if r is Item {
                assert(self@.links =~= was.received(k as int).links);
                assert(self@ =~= was.received(k as int));
            } else {
                assert(self@.links =~= was.links);
                assert(self@ =~= was);
            }
        }
        r
    }

    fn push_out(&mut self, k: usize, d: PipelineData) -> (r: Sent)
        requires
            k + 1 < old(self)@.links.len(),
        ensures
            match r {
                Sent::Taken => old(self)@.links[k + 1].open() && final(self)@ == old(self)@.sent(
                    k as int,
                    d@,
                ),
                Sent::Full(back) => !old(self)@.links[k + 1].open() && !old(self)@.links[k
                    + 1].receiver_gone && back@ == d@ && final(self)@ == old(self)@,
                Sent::Closed => old(self)@.links[k + 1].receiver_gone && final(self)@ == old(self)@,
            },
    {
        let ghost was = self@;
        let ghost dv = d@;
        // The number of channels fits in a `usize`.
        let _links: usize = self.links.len();
        let next: usize = k + 1;
        let r = self.links[next].send(d);
        proof {
            assert(was.links[k + 1] == old(self).links@[k + 1]@);
            if r is Taken {
                assert(self@.links =~= was.sent(k as int, dv).links);
                assert(self@ =~= was.sent(k as int, dv));
            } else {
                assert(self@.links =~= was.links);
                assert(self@ =~= was);
            }
        }
        r
    }

    fn take_item(&mut self, k: usize)
        requires
            k < old(self)@.stages.len(),
            old(self)@.links.len() == old(self)@.stages.len() + 1,
            old(self)@.stages[k as int] is Collecting,
            old(self)@.links[k as int].items.len() > 0,
        ensures
            final(self)@ == performed(old(self)@, k as int, PlanView::Take),
    {
        let ghost was = self@;
        let stage = self.take_stage(k);
        let got = self.receive(k);
        match (stage, got) {
            (Stage::Collecting(which, call, values), Received::Item(d)) => {
                let mut values = values;
                let ghost before = value::values_view(values@);
                let v = d.into_value();
                let ghost vv = v@;
                values.push(v);
                proof {
                    assert(value::values_view(values@) =~= before.push(vv));
                }
                self.set_stage(k, Stage::Collecting(which, call, values));
                self.tick();
                proof {
                    assert(self@ =~= performed(was, k as int, PlanView::Take));
                }
            },
            _ => {},
        }
    }

    fn pass_item(&mut self, k: usize, held: Option<PipelineData>)
        requires
            k < old(self)@.stages.len(),
            old(self)@.links.len() == old(self)@.stages.len() + 1,
            old(self)@.stages[k as int] is Streaming,
            old(self)@.links[k as int].items.len() > 0,
        ensures
            final(self)@ == performed(old(self)@, k as int, Plan::Pass(held)@),
    {
        let ghost was = self@;
        let ghost pv = Plan::Pass(held)@;
        let stage = self.take_stage(k);
        let _ = self.receive(k);
        match stage {
            Stage::Streaming(work, span, _) => {
                self.set_stage(k, Stage::Streaming(work, span, held));
                self.tick();
                proof {
                    assert(self@ =~= performed(was, k as int, pv));
                }
            },
            _ => {},
        }
    }

    fn send_queued(&mut self, k: usize)
        requires
            k < old(self)@.stages.len(),
            old(self)@.links.len() == old(self)@.stages.len() + 1,
            old(self)@.stages[k as int] matches StageView::Sending(items) && items.len() > 0,
            old(self)@.links[k + 1].open(),
        ensures
            final(self)@ == performed(old(self)@, k as int, PlanView::SendQueued),
    {
        let ghost was = self@;
        let stage = self.take_stage(k);
        match stage {
            Stage::Sending(queue, next) => {
                let ghost all = registry::items_view(queue@);
                // The length of the queue fits in a `usize`.
                let _len: usize = queue.len();
                proof {
                    assert(all.skip(next as int)[0] == queue@[next as int]@);
                    assert(all.skip(next as int).drop_first() =~= all.skip(next + 1));
                }
                let _ = self.push_out(k, queue[next].clone());
                self.set_stage(k, Stage::Sending(queue, next + 1));
                self.tick();
                proof {
                    assert(self@ =~= performed(was, k as int, PlanView::SendQueued));
                }
            },
            _ => {},
        }
    }

    fn send_held(&mut self, k: usize)
        requires
            k < old(self)@.stages.len(),
            old(self)@.links.len() == old(self)@.stages.len() + 1,
            old(self)@.stages[k as int] matches StageView::Streaming(_, _, held) && held is Some,
            old(self)@.links[k + 1].open(),
        ensures
            final(self)@ == performed(old(self)@, k as int, PlanView::SendHeld),
    {
        let ghost was = self@;
        let stage = self.take_stage(k);
        match stage {
            Stage::Streaming(work, span, Some(d)) => {
                let _ = self.push_out(k, d);
                let work = match work {
                    Work::Head(limit, taken) => Work::Head(limit, taken.saturating_add(1)),
                    other => other,
                };
                self.set_stage(k, Stage::Streaming(work, span, None));
                self.tick();
                proof {
                    assert(self@ =~= performed(was, k as int, PlanView::SendHeld));
                }
            },
            _ => {},
        }
    }

    /// One step of stage `k`: did it move?
    pub fn step_stage(&mut self, k: usize, env: &Env) -> (r: Result<bool, Query>)
        requires
            old(self)@.wf(),
            k < old(self)@.stages.len(),
            eval::countable(env@.entries),
        ensures
            match planned(old(self)@, k as int, env@) {
                Ok(p) => r == Ok::<bool, Query>(!(p is Blocked)) && final(self)@ == performed(
                    old(self)@,
                    k as int,
                    p,
                ),
                Err(q) => r matches Err(x) && x@ == q && final(self)@ == old(self)@,
            },
    {
        match self.plan(k, env) {
            Err(q) => Err(q),
            Ok(Plan::Blocked) => Ok(false),
            Ok(Plan::Close) => {
                self.close(k);
                self.tick();
                Ok(true)
            },
            Ok(Plan::Fail(e)) => {
                let ghost was = self@;
                let ghost ev = e@;
                self.close(k);
                if self.failure.is_none() {
                    self.failure = Some(e);
                }
                self.tick();
                proof {
                    assert(self@ =~= was.failed(k as int, ev).ticked());
                }
                Ok(true)
            },
            Ok(Plan::Become(s, y)) => {
                let ghost was = self@;
                let ghost sv = s@;
                self.set_stage(k, s);
                self.yields.set(k, y);
                proof {
                    assert(self@ =~= was.becoming(k as int, sv, y));
                }
                self.tick();
                Ok(true)
            },
            Ok(Plan::Take) => {
                self.take_item(k);
                Ok(true)
            },
            Ok(Plan::Pass(d)) => {
                self.pass_item(k, d);
                Ok(true)
            },
            Ok(Plan::SendQueued) => {
                self.send_queued(k);
                Ok(true)
            },
            Ok(Plan::SendHeld) => {
                self.send_held(k);
                Ok(true)
            },
        }
    }
}

/// The stages of a run that has not started.
pub open spec fn waiting(calls: Seq<CallView>) -> Seq<StageView> {
    calls.map_values(|c: CallView| StageView::Waiting(c))
}

/// A run at its start.
pub open spec fn begun(calls: Seq<CallView>) -> RunView {
    RunView {
        stages: waiting(calls),
        links: Seq::new(
            calls.len() + 1,
            |i: int|
                if i == 0 {
                    ChannelView::fresh(1).unsent()
                } else {
                    ChannelView::fresh(STAGE_BUFFER)
                },
        ),
        yields: Seq::new(calls.len(), |i: int| Yield::Single),
        failure: None,
        out: Seq::empty(),
        turn: 0,
        step: 0,
    }
}

/// A run that has not started, with a value for its first command to read.
pub open spec fn fed(m: RunView, v: ValueView) -> RunView {
    RunView {
        stages: m.stages.insert(
            0,
            StageView::Sending(stream::flattened(DataView::Value(v))),
        ),
        links: m.links.insert(1, ChannelView::fresh(STAGE_BUFFER)),
        yields: m.yields.insert(0, yield_of(DataView::Value(v))),
        ..m
    }
}

/// Do the items behind these stages stand for a list?
pub open spec fn spread(yields: Seq<Yield>) -> bool
    decreases yields.len(),
{
    yields.len() > 0 && match yields.last() {
        Yield::Single => false,
        Yield::Batch => true,
        Yield::Same => spread(yields.drop_last()),
    }
}

/// The run after everything that came out was read.
pub open spec fn drained(m: RunView) -> RunView {
    RunView {
        out: m.out + m.links.last().items,
        links: m.links.update(
            m.links.len() - 1,
            ChannelView { items: Seq::empty(), ..m.links.last() },
        ),
        ..m
    }
}

/// What a round comes to: the run, with the stage to go on with, whether
/// anything moved, and the query that stopped it.
pub struct RoundView {
    pub run: RunView,
    pub moved: bool,
    pub need: Option<QueryView>,
}

/// The stages polled in turn from the `k`-th on, then what came out is read.
pub open spec fn round_from(m: RunView, k: int, env: EnvView) -> RoundView
    decreases m.stages.len() - k,
    when m.wf() && 0 <= k <= m.stages.len()
    via round_decreases
{
    if k >= m.stages.len() {
        RoundView {
            run: RunView { turn: 0, ..drained(m) },
            moved: m.links.last().items.len() > 0,
            need: None,
        }
    } else {
        let p = polled(m, k, env);
        if p.need is Some {
            RoundView {
                run: RunView { turn: k as nat, ..p.run },
                moved: p.moved,
                need: p.need,
            }
        } else {
            let rest = round_from(p.run, k + 1, env);
            RoundView { moved: p.moved || rest.moved, ..rest }
        }
    }
}

#[via_fn]
proof fn round_decreases(m: RunView, k: int, env: EnvView) {
    if k < m.stages.len() {
        polling_keeps_bounds(m, k, env);
    }
}

proof fn draining_keeps_bounds(m: RunView)
    requires
        m.wf(),
    ensures
        drained(m).wf(),
        drained(m).stages == m.stages,
{
    let n = drained(m);
    assert forall|i: int| 0 <= i < n.links.len() implies (#[trigger] n.links[i]).bounded()
        && n.links[i].capacity > 0 by {
        assert(m.links[i].bounded() && m.links[i].capacity > 0);
    }
}

/// A round keeps the run in order.
pub proof fn rounds_keep_bounds(m: RunView, k: int, env: EnvView)
    requires
        m.wf(),
        0 <= k <= m.stages.len(),
    ensures
        round_from(m, k, env).run.wf(),
        round_from(m, k, env).run.stages.len() == m.stages.len(),
    decreases m.stages.len() - k,
{
    if k >= m.stages.len() {
        draining_keeps_bounds(m);
    } else {
        polling_keeps_bounds(m, k, env);
        let p = polled(m, k, env);
        if p.need is None {
            rounds_keep_bounds(p.run, k + 1, env);
        }
    }
}

/// What came out of a run stays out of it: a round only adds to it.
pub proof fn rounds_only_add_output(m: RunView, k: int, env: EnvView)
    requires
        m.wf(),
        0 <= k <= m.stages.len(),
    ensures
        m.out.is_prefix_of(round_from(m, k, env).run.out),
    decreases m.stages.len() - k,
{
    if k < m.stages.len() {
        polling_keeps_bounds(m, k, env);
        polling_keeps_output(m, k, env);
        let p = polled(m, k, env);
        if p.need is None {
            rounds_only_add_output(p.run, k + 1, env);
        }
    }
}

proof fn polling_keeps_output(m: RunView, k: int, env: EnvView)
    requires
        m.wf(),
        0 <= k < m.stages.len(),
    ensures
        polled(m, k, env).run.out == m.out,
    decreases phase(m.stages[k]), left_to_do(m, k),
{
    match planned(m, k, env) {
        Ok(PlanView::Blocked) => {},
        Ok(plan) => {
            steps_keep_bounds(m, k, env);
            steps_make_progress(m, k, env);
            steps_are_local(m, k, env, k);
            polling_keeps_output(performed(m, k, plan), k, env);
        },
        Err(_) => {},
    }
}

/// A round in which nothing moves and nothing is asked found every stage
/// blocked, and nothing to read behind the last.
pub(crate) proof fn idle_rounds_find_all_blocked(m: RunView, k: int, env: EnvView)
    requires
        m.wf(),
        0 <= k <= m.stages.len(),
        !round_from(m, k, env).moved,
        round_from(m, k, env).need is None,
    ensures
        forall|i: int|
            k <= i < m.stages.len() ==> #[trigger] planned(m, i, env) == Ok::<PlanView, QueryView>(
                PlanView::Blocked,
            ),
        m.links.last().items.len() == 0,
        round_from(m, k, env).run == (RunView { turn: 0, ..m }),
    decreases m.stages.len() - k,
{
    if k < m.stages.len() {
        assert(polled(m, k, env).run == m);
        idle_rounds_find_all_blocked(m, k + 1, env);
    } else {
        let n = RunView { turn: 0, ..drained(m) };
        assert(m.links.last().items =~= Seq::empty());
        assert(n.out =~= m.out);
        assert(n.links =~= m.links);
        assert(n =~= RunView { turn: 0, ..m });
    }
}

/// Where nothing comes in any more, or something is there to be read, a stage
/// that waits waits for room, and then so does every stage behind it.
proof fn waiting_for_room_reaches_the_end(m: RunView, k: int, env: EnvView)
    requires
        m.wf(),
        0 <= k < m.stages.len(),
        !(m.stages[k] is Done),
        m.links[k].sender_gone || m.links[k].items.len() > 0,
        forall|i: int| 0 <= i < m.stages.len() ==> !(#[trigger] m.stages[i] is Outside),
        forall|i: int|
            k <= i < m.stages.len() ==> #[trigger] planned(m, i, env) == Ok::<PlanView, QueryView>(
                PlanView::Blocked,
            ),
    ensures
        m.links.last().items.len() > 0,
    decreases m.stages.len() - k,
{
    assert(planned(m, k, env) == Ok::<PlanView, QueryView>(PlanView::Blocked));
    assert(m.links[k + 1].bounded() && m.links[k + 1].capacity > 0);
    assert(!(m.stages[k] is Outside));
    assert(!m.links[k + 1].receiver_gone && m.links[k + 1].items.len() > 0);
    if k + 1 < m.stages.len() {
        assert(!(m.stages[k + 1] is Done));
        waiting_for_room_reaches_the_end(m, k + 1, env);
    }
}

/// A run without commands of the host never stalls: until every stage has ended
/// and everything was read, a round moves something or asks for an answer.
pub proof fn built_in_runs_never_stall(m: RunView, env: EnvView)
    requires
        m.wf(),
        forall|i: int| 0 <= i < m.stages.len() ==> !(#[trigger] m.stages[i] is Outside),
        !m.finished(),
    ensures
        round_from(m, 0, env).moved || round_from(m, 0, env).need is Some,
{
    if !round_from(m, 0, env).moved && round_from(m, 0, env).need is None {
        idle_rounds_find_all_blocked(m, 0, env);
        let bad = choose|i: int| 0 <= i < m.stages.len() && !(#[trigger] m.stages[i] is Done);
        assert(0 <= bad < m.stages.len() && !(m.stages[bad] is Done));
        let first = first_unfinished(m, bad);
        waiting_for_room_reaches_the_end(m, first, env);
    }
}

/// The first stage that has not ended: nothing comes in before it any more.
proof fn first_unfinished(m: RunView, k: int) -> (r: int)
    requires
        m.wf(),
        0 <= k < m.stages.len(),
        !(m.stages[k] is Done),
    ensures
        0 <= r <= k,
        !(m.stages[r] is Done),
        m.links[r].sender_gone,
    decreases k,
{
    if k == 0 {
        0
    } else if m.stages[k - 1] is Done {
        k
    } else {
        first_unfinished(m, k - 1)
    }
}

/// A stage that asked for an answer does not wait for anything else: whatever is
/// answered, it goes on, or asks again.
pub proof fn a_stage_that_asked_goes_on(m: RunView, k: int, asked: EnvView, env: EnvView)
    requires
        m.wf(),
        0 <= k < m.stages.len(),
        planned(m, k, asked) is Err,
    ensures
        planned(m, k, env) != Ok::<PlanView, QueryView>(PlanView::Blocked),
        round_from(m, k, env).moved || round_from(m, k, env).need is Some,
{
    if !round_from(m, k, env).moved && round_from(m, k, env).need is None {
        idle_rounds_find_all_blocked(m, k, env);
        assert(planned(m, k, env) == Ok::<PlanView, QueryView>(PlanView::Blocked));
    }
}

proof fn polling_stops_where_it_asks(m: RunView, k: int, env: EnvView)
    requires
        m.wf(),
        0 <= k < m.stages.len(),
        polled(m, k, env).need is Some,
    ensures
        planned(polled(m, k, env).run, k, env) is Err,
    decreases phase(m.stages[k]), left_to_do(m, k),
{
    match planned(m, k, env) {
        Ok(PlanView::Blocked) => {},
        Ok(plan) => {
            steps_keep_bounds(m, k, env);
            steps_make_progress(m, k, env);
            polling_stops_where_it_asks(performed(m, k, plan), k, env);
        },
        Err(_) => {},
    }
}

/// A round that asks for an answer stops at the stage that asked, and the next
/// round goes on with it.
pub proof fn rounds_stop_at_the_stage_that_asked(m: RunView, k: int, env: EnvView)
    requires
        m.wf(),
        0 <= k <= m.stages.len(),
        round_from(m, k, env).need is Some,
    ensures
        ({
            let n = round_from(m, k, env).run;
            n.turn < n.stages.len() && planned(n, n.turn as int, env) is Err
        }),
    decreases m.stages.len() - k,
{
    if k < m.stages.len() {
        polling_keeps_bounds(m, k, env);
        let p = polled(m, k, env);
        if p.need is Some {
            polling_stops_where_it_asks(m, k, env);
            let n = RunView { turn: k as nat, ..p.run };
            assert(round_from(m, k, env).run == n);
            assert(planned(n, k, env) == planned(p.run, k, env));
        } else {
            rounds_stop_at_the_stage_that_asked(p.run, k + 1, env);
        }
    }
}

/// How a round ended.
pub enum Round {
    /// A stage needs an answer; the next round goes on with it.
    Need(Query),
    /// Every stage had its turn.
    Over { moved: bool },
}

impl PipelineRun {
    /// Poll stage `k` until it waits, ends, or needs an answer: did it move,
    /// and what does it need?
    fn poll(&mut self, k: usize, env: &Env) -> (r: (bool, Option<Query>))
        requires
            old(self)@.wf(),
            k < old(self)@.stages.len(),
            eval::countable(env@.entries),
        ensures
            ({
                let p = polled(old(self)@, k as int, env@);
                &&& final(self)@ == p.run
                &&& r.0 == p.moved
                &&& match r.1 {
                    Some(q) => p.need == Some(q@),
                    None => p.need is None,
                }
            }),
            final(self)@.wf(),
            final(self)@.stages.len() == old(self)@.stages.len(),
    {
        let ghost start = self@;
        let ghost goal = polled(start, k as int, env@);
        let mut moved = false;
        proof {
            polling_keeps_bounds(start, k as int, env@);
        }
        loop
            invariant
                self@.wf(),
                k < self@.stages.len(),
                self@.stages.len() == start.stages.len(),
                eval::countable(env@.entries),
                goal == polled(start, k as int, env@),
                goal.run == polled(self@, k as int, env@).run,
                goal.need == polled(self@, k as int, env@).need,
                goal.moved == (moved || polled(self@, k as int, env@).moved),
                start == old(self)@,
            decreases phase(self@.stages[k as int]), left_to_do(self@, k as int),
        {
            let ghost was = self@;
            proof {
                steps_make_progress(was, k as int, env@);
                if planned(was, k as int, env@) is Ok {
                    steps_keep_bounds(was, k as int, env@);
                }
            }
            match self.step_stage(k, env) {
                Ok(b) => {
                    if !b {
                        return (moved, None);
                    }
                    moved = true;
                },
                Err(q) => {
                    return (moved, Some(q));
                },
            }
        }
    }

    /// Read everything that came out.
    fn drain(&mut self) -> (r: bool)
        requires
            old(self)@.wf(),
        ensures
            final(self)@ == drained(old(self)@),
            r == (old(self)@.links.last().items.len() > 0),
    {
        let ghost start = self@;
        let last: usize = self.links.len() - 1;
        let mut moved = false;
        proof {
            assert(start.links.last() == start.links[last as int]);
            assert(drained(self@).links =~= drained(start).links);
        }
        loop
            invariant
                self@.wf(),
                self@.links.len() == start.links.len(),
                last == self@.links.len() - 1,
                drained(self@) == drained(start),
                start == old(self)@,
                moved || self@ == start,
                moved ==> start.links.last().items.len() > 0,
            decreases self@.links[last as int].items.len(),
        {
            let ghost was = self@;
            match self.receive(last) {
                Received::Item(d) => {
                    let ghost dv = d@;
                    let ghost mid = self@;
                    self.out.push(d);
                    proof {
                        assert(was.links.last() == was.links[last as int]);
                        assert(self@.out =~= was.out.push(dv));
                        assert(self@.links =~= mid.links);
                        assert(self@.links.last() == was.links[last as int].without_first());
                        let rest = was.links[last as int].items.drop_first();
                        assert(was.out.push(dv) + rest =~= was.out + was.links[last as int].items);
                        assert(drained(self@).links =~= drained(was).links);
                        assert(drained(self@) =~= drained(was));
                        assert forall|i: int| 0 <= i < self@.links.len() implies (
                        #[trigger] self@.links[i]).bounded() && self@.links[i].capacity > 0 by {
                            assert(was.links[i].bounded() && was.links[i].capacity > 0);
                        }
                        assert(self@.stages =~= was.stages);
                    }
                    moved = true;
                },
                _ => {
                    proof {
                        assert(self@.links.last() == self@.links[last as int]);
                        assert(self@.links.last().items =~= Seq::empty());
                        assert(drained(self@).links =~= self@.links);
                        assert(drained(self@).out =~= self@.out);
                        assert(drained(self@) =~= self@);
                    }
                    return moved;
                },
            }
        }
    }

    /// Give every stage its turn, from the one that the last round stopped
    /// at, then read what came out.
    pub fn round(&mut self, env: &Env) -> (r: Round)
        requires
            old(self)@.wf(),
            eval::countable(env@.entries),
        ensures
            ({
                let goal = round_from(old(self)@, old(self)@.turn as int, env@);
                &&& final(self)@ == goal.run
                &&& match r {
                    Round::Need(q) => goal.need == Some(q@),
                    Round::Over { moved } => goal.need is None && moved == goal.moved,
                }
            }),
            final(self)@.wf(),
    {
        let ghost start = self@;
        let ghost first = self.turn as int;
        let ghost goal = round_from(start, first, env@);
        let n: usize = self.stages.len();
        let mut k: usize = self.turn;
        let mut moved = false;
        proof {
            rounds_keep_bounds(start, first, env@);
        }
        while k < n
            invariant
                self@.wf(),
                k <= n,
                n == self@.stages.len(),
                n == start.stages.len(),
                eval::countable(env@.entries),
                goal == round_from(start, first, env@),
                goal.run == round_from(self@, k as int, env@).run,
                goal.need == round_from(self@, k as int, env@).need,
                goal.moved == (moved || round_from(self@, k as int, env@).moved),
                start == old(self)@,
                first == old(self).turn as int,
            decreases n - k,
        {
            let (stirred, need) = self.poll(k, env);
            match need {
                Some(q) => {
                    let ghost m = self@;
                    self.turn = k;
                    proof {
                        assert(self@ =~= RunView { turn: k as nat, ..m });
                    }
                    return Round::Need(q);
                },
                None => {},
            }
            moved = moved || stirred;
            k = k + 1;
        }
        proof {
            draining_keeps_bounds(self@);
        }
        let read = self.drain();
        let ghost m = self@;
        self.turn = 0;
        proof {
            assert(self@ =~= RunView { turn: 0, ..m });
        }
        Round::Over { moved: moved || read }
    }

    /// Did every stage end, and was everything read that came out?
    pub fn is_finished(&self) -> (r: bool)
        requires
            self@.wf(),
        ensures
            r == self@.finished(),
    {
        let mut i: usize = 0;
        while i < self.stages.len()
            invariant
                i <= self.stages@.len(),
                forall|j: int| 0 <= j < i ==> #[trigger] self@.stages[j] is Done,
            decreases self.stages@.len() - i,
        {
            proof {
                assert(self@.stages[i as int] == self.stages@[i as int]@);
            }
            match &self.stages[i] {
                Stage::Done => {},
                _ => {
                    return false;
                },
            }
            i = i + 1;
        }
        let last: usize = self.links.len() - 1;
        proof {
            assert(self@.links.last() == self.links@[last as int]@);
        }
        self.links[last].is_empty()
    }

    /// Give the first command of a run that has not started a value to read.
    pub fn feed(&mut self, value: Value)
        requires
            old(self)@.wf(),
            old(self)@.unstarted(),
        ensures
            final(self)@ == fed(old(self)@, value@),
            final(self)@.wf(),
    {
        let ghost was = self@;
        let data = PipelineData::Value(value);
        let y = yields_as(&data);
        let items = stream::flatten(data);
        proof {
            assert(registry::items_view(items@).skip(0) =~= registry::items_view(items@));
        }
        self.stages.insert(0, Stage::Sending(items, 0));
        self.links.insert(1, chan::channel(STAGE_BUFFER));
        self.yields.insert(0, y);
        proof {
            let goal = fed(was, value@);
            assert(self@.stages =~= goal.stages);
            assert(self@.links =~= goal.links);
            assert(self@.yields =~= goal.yields);
            assert(self@.out =~= was.out);
            assert forall|i: int| 0 <= i < self@.stages.len() implies sound_stage(
                #[trigger] self@.stages[i],
            ) by {
                if i > 0 {
                    assert(self@.stages[i] == was.stages[i - 1]);
                }
            }
            assert forall|i: int| 0 <= i < self@.links.len() implies (
            #[trigger] self@.links[i]).bounded() && self@.links[i].capacity > 0 by {
                if i == 0 {
                    assert(self@.links[i] == was.links[0]);
                } else if i > 1 {
                    assert(self@.links[i] == was.links[i - 1]);
                }
            }
            let n = self@.stages.len();
            assert(self@.links[0] == was.links[0]);
            assert(n > 1 ==> was.stages[0] is Waiting);
            assert(self@.links.last() == (if n == 1 {
                self@.links[1]
            } else {
                was.links.last()
            }));
            assert forall|k: int| 0 <= k < n implies ((#[trigger] self@.stages[k]) is Done
                <==> self@.links[k].receiver_gone) && (self@.stages[k] is Done <==> self@.links[k
                + 1].sender_gone) by {
                if k > 0 {
                    assert(self@.stages[k] == was.stages[k - 1]);
                    assert(self@.links[k + 1] == was.links[k]);
                    if k > 1 {
                        assert(self@.links[k] == was.links[k - 1]);
                    }
                }
            }
            assert(self@.linked());
        }
    }

    /// Do the items that came out stand for a list?
    pub fn is_spread(&self) -> (r: bool)
        ensures
            r == spread(self@.yields),
    {
        let mut n: usize = self.yields.len();
        proof {
            assert(self.yields@.take(n as int) =~= self.yields@);
        }
        while n > 0
            invariant
                n <= self.yields@.len(),
                spread(self.yields@) == spread(self.yields@.take(n as int)),
            decreases n,
        {
            proof {
                assert(self.yields@.take(n as int).drop_last() =~= self.yields@.take(n - 1));
                assert(self.yields@.take(n as int).last() == self.yields@[n - 1]);
            }
            match self.yields[n - 1] {
                Yield::Single => {
                    return false;
                },
                Yield::Batch => {
                    return true;
                },
                Yield::Same => {},
            }
            n = n - 1;
        }
        false
    }

    /// The next item for a command of the host.
    pub fn outside_recv(&mut self, k: usize) -> (r: Received)
        requires
            old(self)@.wf(),
            k < old(self)@.stages.len(),
            old(self)@.stages[k as int] is Outside,
        ensures
            match r {
                Received::Item(d) => old(self)@.links[k as int].items.len() > 0 && d@ == old(
                    self,
                )@.links[k as int].items[0] && final(self)@ == old(self)@.received(k as int),
                Received::Waiting => old(self)@.links[k as int].items.len() == 0 && !old(
                    self,
                )@.links[k as int].sender_gone && final(self)@ == old(self)@,
                Received::Ended => old(self)@.links[k as int].items.len() == 0 && old(
                    self,
                )@.links[k as int].sender_gone && final(self)@ == old(self)@,
            },
            final(self)@.wf(),
    {
        let ghost was = self@;
        let r = self.receive(k);
        proof {
            assert forall|i: int| 0 <= i < self@.links.len() implies (
            #[trigger] self@.links[i]).bounded() && self@.links[i].capacity > 0 by {
                assert(was.links[i].bounded() && was.links[i].capacity > 0);
            }
        }
        r
    }

    /// An item from a command of the host.
    pub fn outside_send(&mut self, k: usize, d: PipelineData) -> (r: Sent)
        requires
            old(self)@.wf(),
            k < old(self)@.stages.len(),
            old(self)@.stages[k as int] is Outside,
        ensures
            match r {
                Sent::Taken => old(self)@.links[k + 1].open() && final(self)@ == old(self)@.sent(
                    k as int,
                    d@,
                ),
                Sent::Full(back) => !old(self)@.links[k + 1].open() && !old(self)@.links[k
                    + 1].receiver_gone && back@ == d@ && final(self)@ == old(self)@,
                Sent::Closed => old(self)@.links[k + 1].receiver_gone && final(self)@ == old(self)@,
            },
            final(self)@.wf(),
    {
        let ghost was = self@;
        let r = self.push_out(k, d);
        proof {
            assert forall|i: int| 0 <= i < self@.links.len() implies (
            #[trigger] self@.links[i]).bounded() && self@.links[i].capacity > 0 by {
                assert(was.links[i].bounded() && was.links[i].capacity > 0);
            }
        }
        r
    }

    /// A command of the host ended, with an error or without. The first error
    /// wins.
    pub fn outside_finish(&mut self, k: usize, error: Option<ShellError>)
        requires
            old(self)@.wf(),
            k < old(self)@.stages.len(),
            old(self)@.stages[k as int] is Outside,
        ensures
            final(self)@ == old(self)@.ended(k as int, failure_view(error)),
            final(self)@.wf(),
    {
        let ghost was = self@;
        let ghost goal = was.ended(k as int, failure_view(error));
        self.close(k);
        match error {
            Some(e) => {
                if self.failure.is_none() {
                    self.failure = Some(e);
                }
            },
            None => {},
        }
        proof {
            assert(self@ =~= goal);
            assert forall|i: int| 0 <= i < self@.links.len() implies (
            #[trigger] self@.links[i]).bounded() && self@.links[i].capacity > 0 by {
                assert(was.links[i].bounded() && was.links[i].capacity > 0);
            }
            assert forall|i: int| 0 <= i < self@.stages.len() implies sound_stage(
                #[trigger] self@.stages[i],
            ) by {
                assert(sound_stage(was.stages[i]));
            }
        }
    }
}

} // verus!
