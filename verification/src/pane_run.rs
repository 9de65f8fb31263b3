//! A line that runs in a pane: what of its output the pane shows, and when.
//! Items are shown as they come out of the pipeline; at its end what is still
//! held is shown and the result recorded. What goes to a target is not shown.

use crate::ask::{Replies, ReplySeq, Stop, StopView};
use crate::engine::{Engine, EngineView};
use crate::eval::{LineRun, LineRunView};
use crate::execute;
use crate::progress;
use crate::progress::{ConsumerView, ProgressiveConsumer};
use crate::registry::DataView;
use vstd::prelude::*;

verus! {

/// Where the showing of a line's output stands.
pub struct PaneRun {
    pub pane: u32,
    pub run_id: u64,
    pub width: u16,
    /// How many items of the pipeline were shown.
    pub seen: usize,
    pub consumer: ProgressiveConsumer,
}

#[verifier::ext_equal]
pub struct PaneRunView {
    pub pane: u32,
    pub run_id: u64,
    pub width: u16,
    pub seen: int,
    pub consumer: ConsumerView,
}

impl View for PaneRun {
    type V = PaneRunView;

    open spec fn view(&self) -> PaneRunView {
        PaneRunView {
            pane: self.pane,
            run_id: self.run_id,
            width: self.width,
            seen: self.seen as int,
            consumer: self.consumer@,
        }
    }
}

impl PaneRunView {
    /// Before the first item of a pipeline.
    pub open spec fn fresh(pane: u32, run_id: u64, width: u16) -> PaneRunView {
        PaneRunView { pane, run_id, width, seen: 0, consumer: ConsumerView::fresh(width) }
    }
}

pub open spec fn opt_stop(stop: Option<Stop>) -> Option<StopView> {
    match stop {
        Some(s) => Some(s@),
        None => None,
    }
}

/// What showing some items comes to: the consumer, how many items were shown, the
/// texts to paint, and what stopped it before the end.
#[verifier::ext_equal]
pub struct ShownView {
    pub consumer: ConsumerView,
    pub seen: int,
    pub texts: Seq<Seq<char>>,
    pub stop: Option<StopView>,
}

pub open spec fn painted(t: Option<Seq<char>>) -> Seq<Seq<char>> {
    match t {
        Some(t) => seq![t],
        None => Seq::empty(),
    }
}

/// The items from `i` on, one after the other.
pub open spec fn shown(c: ConsumerView, items: Seq<DataView>, i: int, replies: ReplySeq) -> ShownView
    decreases items.len() - i,
{
    if !(0 <= i < items.len()) {
        ShownView { consumer: c, seen: i, texts: Seq::empty(), stop: None }
    } else {
        match progress::item_step(c, items[i], replies) {
            Err(e) => ShownView { consumer: c, seen: i, texts: Seq::empty(), stop: Some(e) },
            Ok((after, t)) => {
                let rest = shown(after, items, i + 1, replies);
                ShownView { texts: painted(t) + rest.texts, ..rest }
            },
        }
    }
}

/// Does what comes out of the line's pipeline go to a target?
pub open spec fn is_redirected(line: LineRunView) -> bool {
    match line.pending {
        Some(p) => p.output is Some,
        None => line.to is Some,
    }
}

/// A pane and the line that runs in it, after a step of showing; and what the
/// step stopped at.
pub struct PaneStep {
    pub engine: EngineView,
    pub pane: PaneRunView,
    pub line: LineRunView,
    pub stop: Option<StopView>,
}

/// What is new is shown, unless it goes to a target.
pub open spec fn items_shown(
    e: EngineView,
    p: PaneRunView,
    line: LineRunView,
    replies: ReplySeq,
) -> PaneStep {
    if is_redirected(line) {
        PaneStep { engine: e, pane: p, line, stop: None }
    } else {
        let s = shown(p.consumer, line.run.out, p.seen, replies);
        PaneStep {
            engine: e.emitting(execute::chunks(p.pane, s.texts)),
            pane: PaneRunView { seen: s.seen, consumer: s.consumer, ..p },
            line,
            stop: s.stop,
        }
    }
}

/// The pipeline is over: the renderer is released, what was still held is shown,
/// the result recorded, and a fresh consumer takes the next pipeline, if there is
/// one.
pub open spec fn pipeline_done(
    e: EngineView,
    p: PaneRunView,
    line: LineRunView,
    replies: ReplySeq,
) -> PaneStep {
    match progress::last_step(p.consumer, replies) {
        Err(stop) => PaneStep { engine: e, pane: p, line, stop: Some(stop) },
        Ok((_, paints, result)) => {
            let after = line.with_result(result);
            let released = execute::released(e.pending, p.pane, p.run_id);
            PaneStep {
                engine: EngineView {
                    pending: if after.over {
                        released
                    } else {
                        execute::owned_by(released, p.pane, p.run_id)
                    },
                    ..e
                }.emitting(execute::chunks(p.pane, paints)),
                pane: PaneRunView::fresh(p.pane, p.run_id, p.width),
                line: after,
                stop: None,
            }
        },
    }
}

/// What a turn of the line comes to in its pane.
pub open spec fn turned(
    e: EngineView,
    p: PaneRunView,
    line: LineRunView,
    complete: bool,
    replies: ReplySeq,
) -> PaneStep {
    let s = items_shown(e, p, line, replies);
    if s.stop is None && complete {
        pipeline_done(s.engine, s.pane, s.line, replies)
    } else {
        s
    }
}

/// Showing goes on from the first item that was not shown, up to the last, or to
/// the one that it stopped at.
pub proof fn showing_reaches_the_end(c: ConsumerView, items: Seq<DataView>, i: int, replies: ReplySeq)
    requires
        0 <= i <= items.len(),
    ensures
        i <= shown(c, items, i, replies).seen <= items.len(),
        shown(c, items, i, replies).stop is None <==> shown(c, items, i, replies).seen
            == items.len(),
    decreases items.len() - i,
{
    if i < items.len() {
        match progress::item_step(c, items[i], replies) {
            Ok((after, _)) => {
                showing_reaches_the_end(after, items, i + 1, replies);
            },
            Err(_) => {},
        }
    }
}

/// Each item is shown once, in order: to show the items as far as they are there,
/// and then those that came since, paints what showing all of them at once paints,
/// and leaves the same behind.
pub proof fn items_are_shown_once_in_order(
    c: ConsumerView,
    items: Seq<DataView>,
    i: int,
    j: int,
    replies: ReplySeq,
)
    requires
        0 <= i <= j <= items.len(),
        shown(c, items.take(j), i, replies).stop is None,
    ensures
        ({
            let first = shown(c, items.take(j), i, replies);
            let then = shown(first.consumer, items, first.seen, replies);
            &&& first.seen == j
            &&& shown(c, items, i, replies) == (ShownView {
                texts: first.texts + then.texts,
                ..then
            })
        }),
    decreases items.len() - i,
{
    let part = items.take(j);
    let first = shown(c, part, i, replies);
    showing_reaches_the_end(c, part, i, replies);
    let then = shown(first.consumer, items, first.seen, replies);
    if i < j {
        assert(part[i] == items[i]);
        match progress::item_step(c, items[i], replies) {
            Ok((after, t)) => {
                items_are_shown_once_in_order(after, items, i + 1, j, replies);
                let rest = shown(after, part, i + 1, replies);
                assert(painted(t) + (rest.texts + then.texts) =~= (painted(t) + rest.texts)
                    + then.texts);
            },
            Err(_) => {},
        }
    } else {
        assert(first.texts + then.texts =~= then.texts);
    }
}

/// A showing that stopped goes on where it stopped once the answer is there:
/// what was painted before is not painted again.
pub proof fn a_stopped_showing_goes_on(
    c: ConsumerView,
    items: Seq<DataView>,
    i: int,
    replies: ReplySeq,
)
    requires
        0 <= i <= items.len(),
    ensures
        ({
            let s = shown(c, items, i, replies);
            let again = shown(s.consumer, items, s.seen, replies);
            &&& again.texts.len() == 0
            &&& again.seen == s.seen
            &&& again.consumer == s.consumer
            &&& again.stop == s.stop
        }),
    decreases items.len() - i,
{
    if i < items.len() {
        match progress::item_step(c, items[i], replies) {
            Ok((after, _)) => {
                a_stopped_showing_goes_on(after, items, i + 1, replies);
            },
            Err(_) => {},
        }
    }
}

/// What goes to a target is not shown, and leaves the pane as it was.
pub proof fn redirected_output_is_not_shown(
    e: EngineView,
    p: PaneRunView,
    line: LineRunView,
    replies: ReplySeq,
)
    requires
        is_redirected(line),
    ensures
        turned(e, p, line, false, replies).engine == e,
        turned(e, p, line, false, replies).pane == p,
        turned(e, p, line, false, replies).line == line,
{
}

impl Engine {
    /// A line starts to run in a pane, and takes over its progressive renderer.
    pub fn begin_pane_run(&mut self, pane: u32, run_id: u64, width: u16) -> (r: PaneRun)
        ensures
            r@ == PaneRunView::fresh(pane, run_id, width),
            final(self)@ == (EngineView {
                pending: execute::owned_by(old(self)@.pending, pane, run_id),
                ..old(self)@
            }),
    {
        self.begin_render(pane, run_id);
        PaneRun { pane, run_id, width, seen: 0, consumer: ProgressiveConsumer::new(width) }
    }

    fn show_items(&mut self, p: &mut PaneRun, line: &LineRun, replies: &Replies) -> (r: Option<Stop>)
        ensures
            ({
                let s = items_shown(old(self)@, old(p)@, line@, replies@);
                &&& final(self)@ == s.engine
                &&& final(p)@ == s.pane
                &&& opt_stop(r) == s.stop
            }),
    {
        if line.is_redirected() {
            return None;
        }
        let ghost was = self@;
        let ghost at = p@;
        let ghost items = line@.run.out;
        let ghost goal = shown(at.consumer, items, at.seen, replies@);
        let ghost mut texts: Seq<Seq<char>> = Seq::empty();
        proof {
            assert(was.emitting(execute::chunks(at.pane, texts)) =~= was);
            assert(texts + goal.texts =~= goal.texts);
        }
        while p.seen < line.run.out.len()
            invariant
                !is_redirected(line@),
                was == old(self)@,
                at == old(p)@,
                items == line@.run.out,
                goal == shown(at.consumer, items, at.seen, replies@),
                goal == (ShownView {
                    texts: texts + shown(p@.consumer, items, p@.seen, replies@).texts,
                    ..shown(p@.consumer, items, p@.seen, replies@)
                }),
                self@ == was.emitting(execute::chunks(at.pane, texts)),
                p@ == (PaneRunView { seen: p@.seen, consumer: p@.consumer, ..at }),
            decreases line.run.out@.len() - p.seen,
        {
            let k: usize = p.seen;
            let ghost c = p@.consumer;
            proof {
                assert(items[k as int] == line.run.out@[k as int]@);
            }
            match p.consumer.item(&line.run.out[k], replies) {
                Err(stop) => {
                    proof {
                        let now = shown(c, items, k as int, replies@);
                        assert(now.stop == Some(stop@) && now.texts.len() == 0);
                        assert(goal.texts =~= texts);
                        assert(p@ =~= PaneRunView { seen: goal.seen, consumer: goal.consumer, ..at });
                    }
                    return Some(stop);
                },
                Ok(None) => {
                    proof {
                        let rest = shown(p@.consumer, items, k + 1, replies@);
                        assert(painted(None) + rest.texts =~= rest.texts);
                    }
                },
                Ok(Some(t)) => {
                    self.emit_output(p.pane, t.as_str());
                    proof {
                        let rest = shown(p@.consumer, items, k + 1, replies@);
                        assert(texts + (painted(Some(t@)) + rest.texts) =~= texts.push(t@)
                            + rest.texts);
                        assert(texts.push(t@).drop_last() =~= texts);
                        assert(self@.events =~= was.events + execute::chunks(
                            at.pane,
                            texts.push(t@),
                        ));
                        texts = texts.push(t@);
                        assert(self@ =~= was.emitting(execute::chunks(at.pane, texts)));
                    }
                },
            }
            p.seen = k + 1;
        }
        proof {
            assert(goal.texts =~= texts);
        }
        None
    }

    fn end_pipeline(&mut self, p: &mut PaneRun, line: &mut LineRun, replies: &Replies) -> (r: Option<
        Stop,
    >)
        requires
            old(line)@.wf(),
        ensures
            final(line)@.wf(),
            ({
                let s = pipeline_done(old(self)@, old(p)@, old(line)@, replies@);
                &&& final(self)@ == s.engine
                &&& final(p)@ == s.pane
                &&& final(line)@ == s.line
                &&& opt_stop(r) == s.stop
            }),
    {
        let ghost was = self@;
        let (texts, result) = match p.consumer.finish(replies) {
            Ok(x) => x,
            Err(stop) => {
                proof {
                    assert(p@ =~= old(p)@);
                }
                return Some(stop);
            },
        };
        self.end_render(p.pane, p.run_id);
        self.emit_all(p.pane, &texts);
        line.record(result);
        p.seen = 0;
        p.consumer = ProgressiveConsumer::new(p.width);
        if !line.over {
            self.begin_render(p.pane, p.run_id);
        }
        proof {
            let s = pipeline_done(was, old(p)@, old(line)@, replies@);
            assert(self@ =~= s.engine);
            assert(p@ =~= s.pane);
        }
        None
    }

    /// Show in the pane what a turn of its line brought, and go on with the next
    /// pipeline where this one is complete. `Some` is what the step stopped at:
    /// with the reply that it asks for, the same call goes on from there.
    pub fn pane_turn(
        &mut self,
        p: &mut PaneRun,
        line: &mut LineRun,
        complete: bool,
        replies: &Replies,
    ) -> (r: Option<Stop>)
        requires
            old(line)@.wf(),
        ensures
            final(line)@.wf(),
            ({
                let s = turned(old(self)@, old(p)@, old(line)@, complete, replies@);
                &&& final(self)@ == s.engine
                &&& final(p)@ == s.pane
                &&& final(line)@ == s.line
                &&& opt_stop(r) == s.stop
            }),
    {
        match self.show_items(p, line, replies) {
            Some(stop) => Some(stop),
            None => if complete {
                self.end_pipeline(p, line, replies)
            } else {
                None
            },
        }
    }
}

} // verus!
