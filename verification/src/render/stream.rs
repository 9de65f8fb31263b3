//! Incremental table rendering for a streaming result.
//!
//! A box table needs column widths, which need rows — but a live stream has
//! no end. So we *probe*: buffer up to `probe_rows` records, commit widths
//! from them, paint the header and those rows, then stream each later row at
//! the committed widths. A later value wider than its column is truncated
//! rather than reflowing the table, which would mean repainting rows already
//! scrolled past.
//!
//! Clockless by design: the row-count and end-of-stream commits live here,
//! while the *time* bound ("paint within T of the first row") is the host's
//! job — this crate has no timer. The host calls `commit()` when its
//! deadline fires.

use crate::ask::{Replies, ReplySeq, Stop, StopView};
use crate::error;
use crate::render::table;
use crate::value;
use crate::value::{Value, ValueView};
use crate::text;
use vstd::prelude::*;

verus! {

pub struct StreamRenderer {
    width: u16,
    probe_rows: usize,
    probe: Vec<Value>,
    committed: Option<Committed>,
}

pub struct Committed {
    cols: Vec<String>,
    widths: Vec<usize>,
}

pub struct CommittedView {
    pub cols: Seq<Seq<char>>,
    pub widths: Seq<usize>,
}

pub struct RendererView {
    pub width: u16,
    pub probe_rows: nat,
    pub probe: Seq<ValueView>,
    pub committed: Option<CommittedView>,
}

impl View for Committed {
    type V = CommittedView;

    closed spec fn view(&self) -> CommittedView {
        CommittedView { cols: text::texts(self.cols@), widths: self.widths@ }
    }
}

impl View for StreamRenderer {
    type V = RendererView;

    closed spec fn view(&self) -> RendererView {
        RendererView {
            width: self.width,
            probe_rows: self.probe_rows as nat,
            probe: value::values_view(self.probe@),
            committed: match self.committed {
                Some(c) => Some(c@),
                None => None,
            },
        }
    }
}

/// What a step of the renderer comes to: the renderer afterwards and what it
/// paints, or what it waits for (the renderer is then as before).
pub type Painted = Result<(RendererView, Option<Seq<char>>), StopView>;

/// The commit: header and probed rows at the widths that they settle on.
/// Nothing is painted where nothing was probed, the widths are committed
/// already, or the records have no fields.
pub open spec fn commit_step(r: RendererView, replies: ReplySeq) -> Painted {
    if r.committed is Some || r.probe.len() == 0 {
        Ok((r, None))
    } else {
        let emptied = RendererView { probe: Seq::empty(), ..r };
        let cols = table::columns_of(r.probe);
        if cols.len() == 0 {
            Ok((emptied, None))
        } else {
            match table::table_body(r.probe, r.width, replies) {
                Err(e) => Err(e),
                Ok((t, widths)) => Ok(
                    (
                        RendererView {
                            committed: Some(CommittedView { cols, widths }),
                            ..emptied
                        },
                        Some(t),
                    ),
                ),
            }
        }
    }
}

/// One more record.
pub open spec fn push_step(r: RendererView, row: ValueView, replies: ReplySeq) -> Painted {
    match r.committed {
        Some(c) => match table::row_text(row, c.cols, c.widths, replies) {
            Ok(t) => Ok((r, Some(t))),
            Err(e) => Err(e),
        },
        None => {
            let more = RendererView { probe: r.probe.push(row), ..r };
            if more.probe.len() >= r.probe_rows {
                commit_step(more, replies)
            } else {
                Ok((more, None))
            }
        },
    }
}

pub open spec fn or_empty(t: Option<Seq<char>>) -> Seq<char> {
    match t {
        Some(s) => s,
        None => Seq::empty(),
    }
}

/// The end of the stream: commit anything still probing, then the bottom
/// border.
pub open spec fn finish_step(r: RendererView, replies: ReplySeq) -> Result<
    (RendererView, Seq<char>),
    StopView,
> {
    match commit_step(r, replies) {
        Err(e) => Err(e),
        Ok((after, t)) => match after.committed {
            Some(c) => Ok((after, or_empty(t) + table::bottom_text(c.widths))),
            None => Ok((after, or_empty(t))),
        },
    }
}

/// What the renderer paints for rows from `i` on and the end of the stream.
pub open spec fn painted_from(
    r: RendererView,
    rows: Seq<ValueView>,
    i: int,
    replies: ReplySeq,
) -> Result<Seq<char>, StopView>
    decreases rows.len() - i,
{
    if !(0 <= i < rows.len()) {
        match finish_step(r, replies) {
            Ok((_, t)) => Ok(t),
            Err(e) => Err(e),
        }
    } else {
        match push_step(r, rows[i], replies) {
            Err(e) => Err(e),
            Ok((after, t)) => table::prefixed(or_empty(t), painted_from(after, rows, i + 1, replies)),
        }
    }
}

/// The end of the stream where every row is still in the probe.
proof fn ending_with_the_probe(r: RendererView, rows: Seq<ValueView>, replies: ReplySeq)
    requires
        r.committed is None,
        r.probe == rows,
        rows.len() > 0,
        table::columns_of(rows).len() > 0,
    ensures
        painted_from(r, rows, rows.len() as int, replies) == table::table_text(
            rows,
            r.width,
            replies,
        ),
{
}

/// The last row, which fills the probe.
proof fn filling_the_probe(r: RendererView, rows: Seq<ValueView>, i: int, replies: ReplySeq)
    requires
        i + 1 == rows.len(),
        r.committed is None,
        r.probe.push(rows[i]) == rows,
        rows.len() == r.probe_rows,
        table::columns_of(rows).len() > 0,
    ensures
        0 <= i ==> painted_from(r, rows, i, replies) == table::table_text(rows, r.width, replies),
{
    let more = RendererView { probe: r.probe.push(rows[i]), ..r };
    match commit_step(more, replies) {
        Err(_) => {},
        Ok((after, t)) => {
            assert(painted_from(after, rows, i + 1, replies) == Ok::<Seq<char>, StopView>(
                Seq::empty() + table::bottom_text(after.committed->0.widths),
            ));
            assert(Seq::<char>::empty() + table::bottom_text(after.committed->0.widths)
                =~= table::bottom_text(after.committed->0.widths));
        },
    }
}

proof fn probing_all(r: RendererView, rows: Seq<ValueView>, i: int, replies: ReplySeq)
    requires
        0 <= i <= rows.len(),
        r.committed is None,
        r.probe == rows.take(i),
        rows.len() <= r.probe_rows,
        rows.len() > 0,
        i < r.probe_rows,
        table::columns_of(rows).len() > 0,
    ensures
        painted_from(r, rows, i, replies) == table::table_text(rows, r.width, replies),
    decreases rows.len() - i,
{
    if i == rows.len() {
        assert(r.probe =~= rows);
        ending_with_the_probe(r, rows, replies);
    } else {
        let more = RendererView { probe: r.probe.push(rows[i]), ..r };
        assert(more.probe =~= rows.take(i + 1));
        if i + 1 >= r.probe_rows {
            assert(more.probe =~= rows);
            filling_the_probe(r, rows, i, replies);
        } else {
            probing_all(more, rows, i + 1, replies);
            match painted_from(more, rows, i + 1, replies) {
                Ok(t) => {
                    assert(Seq::<char>::empty() + t =~= t);
                },
                Err(_) => {},
            }
        }
    }
}

/// When every row arrives inside the probe, the streamed output is what
/// rendering the whole list at once gives. (A list of records without fields
/// is the exception: it renders as a note, and streams as nothing.)
pub proof fn a_full_probe_matches_the_whole_table(
    width: u16,
    probe_rows: nat,
    rows: Seq<ValueView>,
    replies: ReplySeq,
)
    requires
        0 < rows.len() <= probe_rows,
        table::columns_of(rows).len() > 0,
    ensures
        painted_from(
            RendererView { width, probe_rows, probe: Seq::empty(), committed: None },
            rows,
            0,
            replies,
        ) == table::table_text(rows, width, replies),
{
    assert(rows.take(0) =~= Seq::empty());
    probing_all(
        RendererView { width, probe_rows, probe: Seq::empty(), committed: None },
        rows,
        0,
        replies,
    );
}

impl StreamRenderer {
    pub fn new(width: u16, probe_rows: usize) -> (r: Self)
        ensures
            r@ == (RendererView {
                width,
                probe_rows: probe_rows as nat,
                probe: Seq::empty(),
                committed: None,
            }),
    {
        let r = StreamRenderer { width, probe_rows, probe: Vec::new(), committed: None };
        proof {
            assert(r@.probe =~= Seq::empty());
        }
        r
    }

    /// Feed one record. `None` while probing; on the commit transition the
    /// header plus every probed row; afterwards, that one row. Where a reply
    /// is missing the renderer stays as it was, and the row can be fed again.
    pub fn push(&mut self, row: Value, replies: &Replies) -> (r: Result<Option<String>, Stop>)
        ensures
            match push_step(old(self)@, row@, replies@) {
                Ok((after, t)) => r matches Ok(x) && final(self)@ == after && error::opt_text(x)
                    == t,
                Err(e) => r matches Err(x) && x@ == e && final(self)@ == old(self)@,
            },
    {
        if let Some(c) = &self.committed {
            return match table::table_row(&row, &c.cols, &c.widths, replies) {
                Ok(t) => Ok(Some(t)),
                Err(e) => Err(e),
            };
        }
        self.probe.push(row);
        proof {
            assert(self@.probe =~= old(self)@.probe.push(row@));
        }
        if self.probe.len() >= self.probe_rows {
            match self.commit(replies) {
                Ok(t) => Ok(t),
                Err(e) => {
                    let _row = self.probe.pop();
                    proof {
                        assert(self@.probe =~= old(self)@.probe);
                    }
                    Err(e)
                },
            }
        } else {
            Ok(None)
        }
    }

    /// Commit now — the host's deadline fired, or the stream ended. Paints
    /// the header and whatever was probed. `None` if nothing to paint or
    /// already committed.
    pub fn commit(&mut self, replies: &Replies) -> (r: Result<Option<String>, Stop>)
        ensures
            match commit_step(old(self)@, replies@) {
                Ok((after, t)) => r matches Ok(x) && final(self)@ == after && error::opt_text(x)
                    == t,
                Err(e) => r matches Err(x) && x@ == e && *final(self) == *old(self),
            },
    {
        if self.committed.is_some() || self.probe.len() == 0 {
            return Ok(None);
        }
        let cols = table::table_columns(&self.probe);
        if cols.len() == 0 {
            // Records with no fields: nothing meaningful to tabulate.
            self.probe = Vec::new();
            proof {
                assert(self@.probe =~= Seq::empty());
            }
            return Ok(None);
        }
        let widths = match table::column_widths(&cols, &self.probe, self.width, replies) {
            Ok(ws) => ws,
            Err(e) => {
                return Err(e);
            },
        };
        let mut out = table::table_header(&cols, &widths);
        match table::table_rows(&self.probe, &cols, &widths, replies) {
            Ok(body) => {
                out.append(body.as_str());
            },
            Err(e) => {
                return Err(e);
            },
        }
        self.probe = Vec::new();
        self.committed = Some(Committed { cols, widths });
        proof {
            assert(self@.probe =~= Seq::empty());
        }
        Ok(Some(out))
    }

    /// Whether this renderer has committed widths (via `push` reaching
    /// `probe_rows`, or a forced `commit`). Lets a caller stop polling once
    /// there is nothing left for a deadline to do — `commit()` alone can't
    /// tell "already committed" apart from "still empty", since both return
    /// `None`.
    pub fn is_committed(&self) -> (r: bool)
        ensures
            r == (self@.committed is Some),
    {
        self.committed.is_some()
    }

    /// Close the table: commit anything still probing, then the bottom
    /// border. Empty if nothing was ever painted.
    pub fn finish(&mut self, replies: &Replies) -> (r: Result<String, Stop>)
        ensures
            match finish_step(old(self)@, replies@) {
                Ok((after, t)) => r matches Ok(x) && final(self)@ == after && x@ == t,
                Err(e) => r matches Err(x) && x@ == e && *final(self) == *old(self),
            },
    {
        let mut out = match self.commit(replies) {
            Ok(Some(t)) => t,
            Ok(None) => String::new(),
            Err(e) => {
                return Err(e);
            },
        };
        if let Some(c) = &self.committed {
            out.append(table::table_bottom(&c.widths).as_str());
        }
        Ok(out)
    }
}

} // verus!
