//! Paints a pipeline's items to a pane as they arrive.
//!
//! Records feed a `StreamRenderer` (probe → commit widths → stream rows), so
//! a long or live result shows its first rows without waiting for the end.
//! Anything else (scalars, `Rendered` help text) is buffered and rendered
//! once at the end — those have no incremental form.

use crate::ask::{Replies, ReplySeq, Stop, StopView};
use crate::error;
use crate::eval;
use crate::registry;
use crate::registry::{DataView, PipelineData};
use crate::render;
use crate::render::stream;
use crate::render::stream::{RendererView, StreamRenderer};
use crate::text;
use crate::value::{Value, ValueView};
use vstd::prelude::*;

verus! {

broadcast use crate::value::value_view_cases;

/// Rows to buffer before committing column widths. The host may commit
/// sooner on a deadline; this is the row-count bound.
pub const PROBE_ROWS: usize = 50;

pub struct ProgressiveConsumer {
    /// Kept alongside the renderer for the mixed-stream fallback, which
    /// renders buffered non-record items at this same width.
    width: u16,
    renderer: StreamRenderer,
    /// Non-record items, rendered at the end via the normal path.
    buffered: Vec<PipelineData>,
    painted: bool,
}

#[verifier::ext_equal]
pub struct ConsumerView {
    pub width: u16,
    pub renderer: RendererView,
    pub buffered: Seq<DataView>,
    pub painted: bool,
}

impl ConsumerView {
    /// A consumer that no item has reached.
    pub open spec fn fresh(width: u16) -> ConsumerView {
        ConsumerView {
            width,
            renderer: RendererView {
                width,
                probe_rows: PROBE_ROWS as nat,
                probe: Seq::empty(),
                committed: None,
            },
            buffered: Seq::empty(),
            painted: false,
        }
    }
}

impl View for ProgressiveConsumer {
    type V = ConsumerView;

    closed spec fn view(&self) -> ConsumerView {
        ConsumerView {
            width: self.width,
            renderer: self.renderer@,
            buffered: registry::items_view(self.buffered@),
            painted: self.painted,
        }
    }
}

/// The text that an item prints as: a value is rendered, text that this shell
/// formatted itself is printed as it is.
pub open spec fn item_text(d: DataView, width: u16, replies: ReplySeq) -> Result<
    Seq<char>,
    StopView,
> {
    match d {
        DataView::Value(v) => render::rendered(v, width, replies),
        DataView::Rendered(s) => Ok(s + "\n"@),
        DataView::Empty => Ok(Seq::empty()),
    }
}

/// The texts that the first `n` items print as.
pub open spec fn item_texts(items: Seq<DataView>, n: nat, width: u16, replies: ReplySeq) -> Result<
    Seq<Seq<char>>,
    StopView,
>
    decreases n,
{
    if n == 0 || n > items.len() {
        Ok(Seq::empty())
    } else {
        match item_texts(items, (n - 1) as nat, width, replies) {
            Err(e) => Err(e),
            Ok(out) => match item_text(items[n - 1], width, replies) {
                Err(e) => Err(e),
                Ok(t) => Ok(out.push(t)),
            },
        }
    }
}

proof fn item_texts_failure_stays(
    items: Seq<DataView>,
    n: nat,
    m: nat,
    width: u16,
    replies: ReplySeq,
)
    requires
        n <= m <= items.len(),
        item_texts(items, n, width, replies) is Err,
    ensures
        item_texts(items, m, width, replies) == item_texts(items, n, width, replies),
    decreases m - n,
{
    if n < m {
        item_texts_failure_stays(items, n, (m - 1) as nat, width, replies);
    }
}

/// What each of some items prints as.
pub fn print_items(items: &Vec<PipelineData>, width: u16, replies: &Replies) -> (r: Result<
    Vec<String>,
    Stop,
>)
    ensures
        match r {
            Ok(out) => item_texts(
                registry::items_view(items@),
                items@.len(),
                width,
                replies@,
            ) == Ok::<Seq<Seq<char>>, StopView>(text::texts(out@)),
            Err(e) => item_texts(
                registry::items_view(items@),
                items@.len(),
                width,
                replies@,
            ) == Err::<Seq<Seq<char>>, StopView>(e@),
        },
{
    let ghost all = registry::items_view(items@);
    let mut out: Vec<String> = Vec::new();
    let mut i: usize = 0;
    proof {
        assert(text::texts(out@) =~= Seq::empty());
    }
    while i < items.len()
        invariant
            i <= items@.len(),
            all == registry::items_view(items@),
            item_texts(all, i as nat, width, replies@) == Ok::<Seq<Seq<char>>, StopView>(
                text::texts(out@),
            ),
        decreases items@.len() - i,
    {
        let ghost before = text::texts(out@);
        proof {
            assert(all[i as int] == items@[i as int]@);
        }
        let t = match &items[i] {
            PipelineData::Value(v) => match render::render(v, width, replies) {
                Ok(t) => t,
                Err(e) => {
                    proof {
                        item_texts_failure_stays(
                            all,
                            (i + 1) as nat,
                            all.len(),
                            width,
                            replies@,
                        );
                    }
                    return Err(e);
                },
            },
            PipelineData::Rendered(s) => {
                let mut t = s.clone();
                t.append("\n");
                t
            },
            PipelineData::Empty => {
                let t = String::new();
                proof {
                    assert(t@ =~= Seq::empty());
                }
                t
            },
        };
        let ghost tv = t@;
        out.push(t);
        proof {
            assert(text::texts(out@) =~= before.push(tv));
        }
        i = i + 1;
    }
    Ok(out)
}

/// What an item comes to: the consumer afterwards, and what it paints.
pub open spec fn item_step(c: ConsumerView, d: DataView, replies: ReplySeq) -> Result<
    (ConsumerView, Option<Seq<char>>),
    StopView,
> {
    match d {
        DataView::Value(ValueView::Record(fields)) => match stream::push_step(
            c.renderer,
            ValueView::Record(fields),
            replies,
        ) {
            Err(e) => Err(e),
            Ok((after, t)) => Ok((ConsumerView { renderer: after, painted: true, ..c }, t)),
        },
        other => Ok((ConsumerView { buffered: c.buffered.push(other), ..c }, None)),
    }
}

/// The end of the stream: the consumer afterwards, which holds no item any more,
/// what is still to be painted, and the value that the pipeline reports. Where
/// records were painted, the table is closed, what else came is printed behind
/// it, and nothing is left to report.
pub open spec fn last_step(c: ConsumerView, replies: ReplySeq) -> Result<
    (ConsumerView, Seq<Seq<char>>, DataView),
    StopView,
> {
    if c.painted {
        match item_texts(c.buffered, c.buffered.len(), c.width, replies) {
            Err(e) => Err(e),
            Ok(more) => match stream::finish_step(c.renderer, replies) {
                Err(e) => Err(e),
                Ok((after, tail)) => Ok(
                    (
                        ConsumerView { renderer: after, buffered: Seq::empty(), ..c },
                        seq![tail] + more,
                        DataView::Empty,
                    ),
                ),
            },
        }
    } else {
        Ok(
            (
                ConsumerView { buffered: Seq::empty(), ..c },
                Seq::empty(),
                eval::reported(c.buffered),
            ),
        )
    }
}

/// No item is lost: whatever the order in which records and other items come,
/// each either goes to the renderer or is kept for the end.
pub proof fn items_are_painted_or_kept(c: ConsumerView, d: DataView, replies: ReplySeq)
    ensures
        item_step(c, d, replies) matches Ok((after, _)) ==> {
            ||| after.buffered == c.buffered.push(d) && after.renderer == c.renderer
            ||| after.buffered == c.buffered && after.painted && stream::push_step(
                c.renderer,
                d.value(),
                replies,
            ) is Ok
        },
{
}

impl ProgressiveConsumer {
    pub fn new(width: u16) -> (r: Self)
        ensures
            r@ == ConsumerView::fresh(width),
    {
        let r = ProgressiveConsumer {
            width,
            renderer: StreamRenderer::new(width, PROBE_ROWS),
            buffered: Vec::new(),
            painted: false,
        };
        proof {
            assert(r@.buffered =~= Seq::empty());
        }
        r
    }

    /// Take one item: the text to paint for it now, if any. Where a reply is
    /// missing the consumer stays as it was.
    pub fn item(&mut self, item: &PipelineData, replies: &Replies) -> (r: Result<
        Option<String>,
        Stop,
    >)
        ensures
            match item_step(old(self)@, item@, replies@) {
                Ok((after, t)) => (r matches Ok(x) && error::opt_text(x) == t) && final(self)@
                    == after,
                Err(e) => (r matches Err(x) && x@ == e) && final(self)@ == old(self)@,
            },
    {
        let ghost was = self@;
        match item {
            PipelineData::Value(Value::Record(fields)) => {
                let row = Value::Record(fields.clone());
                match self.renderer.push(row, replies) {
                    Ok(t) => {
                        self.painted = true;
                        Ok(t)
                    },
                    Err(e) => {
                        proof {
                            assert(self@ =~= was);
                        }
                        Err(e)
                    },
                }
            },
            other => {
                self.buffered.push(other.clone());
                proof {
                    assert(self@.buffered =~= was.buffered.push(item@));
                }
                Ok(None)
            },
        }
    }

    /// End of stream: the texts still to be painted, and the value this
    /// pipeline reports.
    pub fn finish(&mut self, replies: &Replies) -> (r: Result<(Vec<String>, PipelineData), Stop>)
        ensures
            match last_step(old(self)@, replies@) {
                Ok((after, paints, d)) => (r matches Ok((x, y)) && text::texts(x@) == paints && y@
                    == d) && final(self)@ == after,
                Err(e) => (r matches Err(x) && x@ == e) && final(self)@ == old(self)@,
            },
    {
        let ghost was = self@;
        if self.painted {
            // Mixed stream: records painted progressively, but non-record
            // items also arrived (pathological, but never silently dropped).
            // Ordering relative to the painted rows is lost either way, so
            // they are rendered now via the normal one-shot path.
            let mut more = match print_items(&self.buffered, self.width, replies) {
                Ok(m) => m,
                Err(e) => {
                    return Err(e);
                },
            };
            let tail = match self.renderer.finish(replies) {
                Ok(t) => t,
                Err(e) => {
                    proof {
                        assert(self@ =~= was);
                    }
                    return Err(e);
                },
            };
            let ghost mv = text::texts(more@);
            let ghost tv = tail@;
            let mut paints: Vec<String> = Vec::new();
            paints.push(tail);
            paints.append(&mut more);
            self.buffered = Vec::new();
            proof {
                assert(text::texts(paints@) =~= seq![tv] + mv);
                assert(self@.buffered =~= Seq::empty());
            }
            // Already painted; nothing left for the caller to render.
            return Ok((paints, PipelineData::Empty));
        }
        let mut items: Vec<PipelineData> = Vec::new();
        std::mem::swap(&mut items, &mut self.buffered);
        proof {
            assert(registry::items_view(items@) =~= was.buffered);
            assert(self@.buffered =~= Seq::empty());
        }
        let none: Vec<String> = Vec::new();
        proof {
            assert(text::texts(none@) =~= Seq::empty());
        }
        Ok((none, eval::report(items)))
    }

    /// Commit what the renderer has probed so far: the host's deadline for a
    /// slow source.
    pub fn commit(&mut self, replies: &Replies) -> (r: Result<Option<String>, Stop>)
        ensures
            match stream::commit_step(old(self)@.renderer, replies@) {
                Ok((after, t)) => (r matches Ok(x) && error::opt_text(x) == t) && final(self)@ == (
                ConsumerView { renderer: after, ..old(self)@ }),
                Err(e) => (r matches Err(x) && x@ == e) && final(self)@ == old(self)@,
            },
    {
        let r = self.renderer.commit(replies);
        r
    }

    pub fn is_committed(&self) -> (r: bool)
        ensures
            r == (self@.renderer.committed is Some),
    {
        self.renderer.is_committed()
    }
}

} // verus!
