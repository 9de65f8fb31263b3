//! Per-command output buffering.
//!
//! A command controls its own cadence: `line` (the stdio default) flushes on
//! a delimiter, `byte` flushes every write so a progress bar appears as it is
//! drawn, and `block` holds everything until `flush()`. Three invariants
//! hold in every mode: `flush()` always works, whatever is buffered when the
//! command ends is emitted rather than lost, and no mode holds more than
//! `BLOCK_LIMIT` — cadence is the command's to choose, memory is not.
//!
//! Pure: it returns the text to emit and knows nothing about sinks or JS.

use crate::error;
use crate::text;
use vstd::prelude::*;

verus! {

/// How many bytes any mode holds before flushing itself, so a runaway command
/// cannot buffer without bound. It applies to `line` as much as to `block`:
/// output with no delimiter in it (a minified JSON body, a `\r` progress bar
/// written in the default mode) is exactly as unbounded as output a command
/// never flushes.
pub const BLOCK_LIMIT: usize = 8192;

#[derive(Clone, Copy, Debug, PartialEq, Eq, Structural)]
pub enum Mode {
    /// Flush when the delimiter is written (default, delimiter `\n`), or at
    /// `BLOCK_LIMIT` if it never is.
    Line,
    /// Flush on every write.
    Byte,
    /// Flush only on `flush()`, at `BLOCK_LIMIT`, or at the end.
    Block,
}

pub struct OutputBuffer {
    mode: Mode,
    delimiter: String,
    buf: Vec<char>,
    /// Length of `buf` in bytes.
    bytes: usize,
    /// How much of `buf` has already been searched for the current
    /// delimiter and found not to contain one. A write scans its own text
    /// rather than everything written before it.
    scanned: usize,
}

pub struct BufferView {
    pub mode: Mode,
    pub delimiter: Seq<char>,
    pub buf: Seq<char>,
}

impl View for OutputBuffer {
    type V = BufferView;

    closed spec fn view(&self) -> BufferView {
        BufferView { mode: self.mode, delimiter: self.delimiter@, buf: self.buf@ }
    }
}

/// The last place, at most `j`, at which a text holds the delimiter.
pub open spec fn last_match_from(s: Seq<char>, d: Seq<char>, j: int) -> Option<int>
    decreases j + 1,
{
    if j < 0 {
        None
    } else if text::matches_at(s, j, d) {
        Some(j)
    } else {
        last_match_from(s, d, j - 1)
    }
}

/// The last place at which a text holds the delimiter.
pub open spec fn last_match(s: Seq<char>, d: Seq<char>) -> Option<int> {
    last_match_from(s, d, s.len() as int)
}

pub(crate) proof fn last_match_is(s: Seq<char>, d: Seq<char>, j: int)
    ensures
        match last_match_from(s, d, j) {
            Some(k) => 0 <= k <= j && text::matches_at(s, k, d) && forall|m: int|
                k < m <= j ==> !#[trigger] text::matches_at(s, m, d),
            None => forall|m: int| m <= j ==> !#[trigger] text::matches_at(s, m, d),
        },
    decreases j + 1,
{
    if j >= 0 {
        last_match_is(s, d, j - 1);
    }
}

pub open spec fn some_text(s: Seq<char>) -> Option<Seq<char>> {
    if s.len() > 0 {
        Some(s)
    } else {
        None
    }
}

/// A write: what is buffered afterwards, and what is emitted now. At the limit
/// and in byte mode everything goes out; in line mode what ends with the last
/// delimiter does; in block mode nothing.
pub open spec fn written(b: BufferView, t: Seq<char>) -> (BufferView, Option<Seq<char>>) {
    let all = b.buf + t;
    let empty = BufferView { buf: Seq::empty(), ..b };
    if text::byte_len(b.buf) + text::byte_len(t) >= BLOCK_LIMIT || b.mode == Mode::Byte {
        (empty, some_text(all))
    } else if b.mode == Mode::Line {
        match last_match(all, b.delimiter) {
            Some(j) => {
                let end = j + b.delimiter.len();
                (BufferView { buf: all.skip(end), ..b }, Some(all.take(end)))
            },
            None => (BufferView { buf: all, ..b }, None),
        }
    } else {
        (BufferView { buf: all, ..b }, None)
    }
}

pub open spec fn or_nothing(s: Option<Seq<char>>) -> Seq<char> {
    match s {
        Some(t) => t,
        None => Seq::empty(),
    }
}

/// Nothing is lost and nothing is made up: what a write emits, followed by
/// what stays buffered, is what was buffered followed by what was written.
pub proof fn write_loses_nothing(b: BufferView, t: Seq<char>)
    requires
        b.delimiter.len() > 0,
    ensures
        ({
            let (after, out) = written(b, t);
            or_nothing(out) + after.buf == b.buf + t
        }),
{
    let all = b.buf + t;
    let (after, out) = written(b, t);
    last_match_is(all, b.delimiter, all.len() as int);
    assert(or_nothing(out) + after.buf =~= all);
}

/// No mode holds `BLOCK_LIMIT` bytes or more.
pub proof fn write_stays_below_the_limit(b: BufferView, t: Seq<char>)
    requires
        b.delimiter.len() > 0,
        text::byte_len(b.buf) < BLOCK_LIMIT,
    ensures
        text::byte_len(written(b, t).0.buf) < BLOCK_LIMIT,
{
    let all = b.buf + t;
    text::byte_len_concat(b.buf, t);
    last_match_is(all, b.delimiter, all.len() as int);
    match last_match(all, b.delimiter) {
        Some(j) => {
            let end = j + b.delimiter.len();
            text::byte_len_concat(all.take(end), all.skip(end));
            assert(all.take(end) + all.skip(end) =~= all);
        },
        None => {},
    }
}

/// A write that would reach the limit emits everything, a partial line among it,
/// and no write emits an empty text.
pub proof fn a_full_buffer_is_emptied(b: BufferView, t: Seq<char>)
    requires
        b.delimiter.len() > 0,
    ensures
        ({
            let (after, out) = written(b, t);
            &&& text::byte_len(b.buf) + text::byte_len(t) >= BLOCK_LIMIT ==> out == Some(b.buf + t)
                && after.buf.len() == 0
            &&& out matches Some(s) ==> s.len() > 0
        }),
{
    let all = b.buf + t;
    text::byte_len_concat(b.buf, t);
    last_match_is(all, b.delimiter, all.len() as int);
    if all.len() == 0 {
        assert(text::byte_len(all) == 0);
    }
}

/// In line mode a half-written line stays back: what is buffered after a write
/// holds no delimiter.
pub proof fn line_mode_keeps_only_a_partial_line(b: BufferView, t: Seq<char>)
    requires
        b.mode == Mode::Line,
        b.delimiter.len() > 0,
    ensures
        last_match(written(b, t).0.buf, b.delimiter) is None,
{
    let all = b.buf + t;
    let d = b.delimiter;
    let rest = written(b, t).0.buf;
    last_match_is(all, d, all.len() as int);
    last_match_is(rest, d, rest.len() as int);
    match last_match(rest, d) {
        Some(k) => {
            match last_match(all, d) {
                Some(j) => {
                    if rest.len() > 0 {
                        let end = j + d.len();
                        assert(all.subrange(end + k, end + k + d.len()) =~= rest.subrange(
                            k,
                            k + d.len(),
                        ));
                        assert(text::matches_at(all, end + k, d));
                    }
                },
                None => {},
            }
        },
        None => {},
    }
}

/// Length of a run of characters in bytes.
fn bytes_of(s: &Vec<char>, from: usize) -> (r: usize)
    requires
        from <= s@.len(),
        text::byte_len(s@.skip(from as int)) <= usize::MAX,
    ensures
        r == text::byte_len(s@.skip(from as int)),
{
    let ghost part = s@.skip(from as int);
    let mut n: usize = 0;
    let mut k: usize = from;
    proof {
        text::byte_offset_end(part);
    }
    while k < s.len()
        invariant
            from <= k <= s@.len(),
            part == s@.skip(from as int),
            n == text::byte_offset(part, k - from),
            text::byte_len(part) <= usize::MAX,
        decreases s@.len() - k,
    {
        proof {
            text::byte_offset_step(part, k - from);
            text::byte_offset_monotone(part, k + 1 - from, part.len() as int);
            text::byte_offset_end(part);
        }
        n = n + text::utf8_width(s[k]);
        k = k + 1;
    }
    proof {
        text::byte_offset_end(part);
    }
    n
}

impl OutputBuffer {
    /// What holds of a buffer at any time: it stays below the limit, and what
    /// was scanned holds no delimiter.
    pub closed spec fn wf(&self) -> bool {
        &&& self.delimiter@.len() > 0
        &&& self.bytes == text::byte_len(self.buf@)
        &&& self.bytes < BLOCK_LIMIT
        &&& self.scanned <= self.buf@.len()
        &&& forall|j: int|
            j + self.delimiter@.len() <= self.scanned ==> !#[trigger] text::matches_at(
                self.buf@,
                j,
                self.delimiter@,
            )
    }

    /// What a buffer keeps to at any time, in every mode: its delimiter is not
    /// empty, and the text that it holds is shorter than `BLOCK_LIMIT` bytes.
    pub proof fn stays_below_the_limit(&self)
        requires
            self.wf(),
        ensures
            self@.delimiter.len() > 0,
            text::byte_len(self@.buf) < BLOCK_LIMIT,
    {
    }

    pub fn new() -> (r: Self)
        ensures
            r.wf(),
            r@ == (BufferView { mode: Mode::Line, delimiter: "\n"@, buf: Seq::empty() }),
    {
        proof {
            reveal_strlit("\n");
        }
        OutputBuffer {
            mode: Mode::Line,
            delimiter: "\n".to_owned(),
            buf: Vec::new(),
            bytes: 0,
            scanned: 0,
        }
    }

    /// Switch modes. `delimiter` applies to `Line` only; `None` keeps the
    /// current one (default `\n`). An empty delimiter is ignored -- it would
    /// make every write flush, which is what `Byte` is for.
    pub fn set_mode(&mut self, mode: Mode, delimiter: Option<String>)
        requires
            old(self).wf(),
        ensures
            final(self).wf(),
            final(self)@ == (BufferView {
                mode,
                delimiter: match delimiter {
                    Some(d) => if d@.len() > 0 {
                        d@
                    } else {
                        old(self)@.delimiter
                    },
                    None => old(self)@.delimiter,
                },
                buf: old(self)@.buf,
            }),
    {
        self.mode = mode;
        if let Some(d) = delimiter {
            if !d.as_str().is_empty() {
                self.delimiter = d;
            }
        }
        // A new delimiter says nothing about the old scan: text already
        // buffered may hold it.
        self.scanned = 0;
    }

    /// The current line delimiter, appended by the `ctx.log(line)` sugar.
    pub fn delimiter(&self) -> (r: &str)
        ensures
            r@ == self@.delimiter,
    {
        self.delimiter.as_str()
    }

    /// Buffer `text`, returning whatever should be emitted now.
    pub fn write(&mut self, t: &str) -> (r: Option<String>)
        requires
            old(self).wf(),
        ensures
            final(self).wf(),
            (final(self)@, error::opt_text(r)) == written(old(self)@, t@),
    {
        // The limit is checked before the append, and in every mode: a single
        // write larger than the limit must not land in `buf` at all, and
        // `line` mode needs the bound as much as `block` does. Over the limit
        // everything pending plus this write goes out now, tail included.
        let size: usize = t.as_bytes().len();
        proof {
            text::byte_len_is_encoded_len(t@);
            text::byte_len_concat(self.buf@, t@);
        }
        if size >= BLOCK_LIMIT - self.bytes {
            return self.emit_through(t);
        }
        match self.mode {
            Mode::Byte => self.emit_through(t),
            Mode::Line => self.write_line(t, size),
            Mode::Block => {
                let ghost before = self.buf@;
                let mut more = text::to_chars(t);
                self.buf.append(&mut more);
                self.bytes = self.bytes + size;
                proof {
                    assert forall|j: int|
                        j + self.delimiter@.len()
                            <= self.scanned implies !#[trigger] text::matches_at(
                        self.buf@,
                        j,
                        self.delimiter@,
                    ) by {
                        if 0 <= j {
                            assert(self.buf@.subrange(j, j + self.delimiter@.len())
                                =~= before.subrange(j, j + self.delimiter@.len()));
                            assert(!text::matches_at(before, j, self.delimiter@));
                        }
                    }
                }
                None
            },
        }
    }

    /// Flush through the last delimiter, keeping any partial tail buffered --
    /// that is what keeps a half-written line off screen until it completes.
    fn write_line(&mut self, t: &str, size: usize) -> (r: Option<String>)
        requires
            old(self).wf(),
            old(self)@.mode == Mode::Line,
            size == text::byte_len(t@),
            text::byte_len(old(self)@.buf) + size < BLOCK_LIMIT,
        ensures
            final(self).wf(),
            (final(self)@, error::opt_text(r)) == written(old(self)@, t@),
    {
        let d = text::to_chars(self.delimiter.as_str());
        let from: usize = self.scan_start();
        let mut more = text::to_chars(t);
        let ghost before = self.buf@;
        self.buf.append(&mut more);
        let ghost all = self.buf@;
        proof {
            assert(all =~= before + t@);
            text::byte_len_concat(before, t@);
            assert forall|m: int| m < from implies !#[trigger] text::matches_at(all, m, d@) by {
                if 0 <= m && m + d@.len() <= all.len() {
                    assert(m + d@.len() <= self.scanned);
                    assert(all.subrange(m, m + d@.len()) =~= before.subrange(m, m + d@.len()));
                    assert(!text::matches_at(before, m, d@));
                }
            }
        }
        let n: usize = self.buf.len();
        let mut j: usize = n;
        while j > from && !text::holds_at(&self.buf, j, &d)
            invariant
                from <= j <= n,
                n == self.buf@.len(),
                self.buf@ == all,
                forall|m: int| j < m <= n ==> !#[trigger] text::matches_at(all, m, d@),
            decreases j,
        {
            j = j - 1;
        }
        if text::holds_at(&self.buf, j, &d) {
            proof {
                last_match_is(all, d@, n as int);
            }
            let end: usize = j + d.len();
            let rest = self.buf.split_off(end);
            let out = text::from_chars(&self.buf);
            proof {
                assert(self.buf@ =~= all.take(end as int));
                assert(rest@ =~= all.skip(end as int));
                text::byte_len_concat(all.take(end as int), all.skip(end as int));
                assert(all.take(end as int) + all.skip(end as int) =~= all);
                line_mode_keeps_only_a_partial_line(old(self)@, t@);
                last_match_is(rest@, d@, rest@.len() as int);
                assert(rest@.skip(0) =~= rest@);
            }
            self.bytes = bytes_of(&rest, 0);
            self.scanned = rest.len();
            self.buf = rest;
            Some(out)
        } else {
            proof {
                last_match_is(all, d@, n as int);
                assert forall|m: int| m <= n implies !#[trigger] text::matches_at(all, m, d@) by {
                    if m < from {
                    } else if m == j {
                    } else if m > j {
                    } else {
                        assert(m < from);
                    }
                }
            }
            self.bytes = self.bytes + size;
            self.scanned = n;
            None
        }
    }

    /// Where the next delimiter search must start: everything below `scanned`
    /// holds no delimiter, so a match can only begin less than a delimiter's
    /// length before that point.
    fn scan_start(&self) -> (r: usize)
        requires
            self.wf(),
        ensures
            r <= self.buf@.len(),
            r + self.delimiter@.len() <= self.scanned + 1 || r == 0,
            r <= self.scanned,
    {
        let overlap: usize = self.delimiter.as_str().unicode_len() - 1;
        self.scanned.saturating_sub(overlap)
    }

    /// Emit everything pending plus `t`, without routing `t` through the
    /// buffer. `buf` is left empty, so an oversized write never grows it.
    fn emit_through(&mut self, t: &str) -> (r: Option<String>)
        requires
            old(self).wf(),
        ensures
            final(self).wf(),
            final(self)@ == (BufferView { buf: Seq::empty(), ..old(self)@ }),
            error::opt_text(r) == some_text(old(self)@.buf + t@),
    {
        let mut out = text::from_chars(&self.buf);
        self.buf = Vec::new();
        self.bytes = 0;
        self.scanned = 0;
        out.append(t);
        if out.as_str().is_empty() {
            None
        } else {
            Some(out)
        }
    }

    /// Emit everything buffered now, whatever the mode.
    pub fn flush(&mut self) -> (r: Option<String>)
        requires
            old(self).wf(),
        ensures
            final(self).wf(),
            final(self)@ == (BufferView { buf: Seq::empty(), ..old(self)@ }),
            error::opt_text(r) == some_text(old(self)@.buf),
    {
        self.take()
    }

    /// The command ended: emit anything still buffered so nothing is lost.
    pub fn finish(&mut self) -> (r: Option<String>)
        requires
            old(self).wf(),
        ensures
            final(self).wf(),
            final(self)@ == (BufferView { buf: Seq::empty(), ..old(self)@ }),
            error::opt_text(r) == some_text(old(self)@.buf),
    {
        self.take()
    }

    fn take(&mut self) -> (r: Option<String>)
        requires
            old(self).wf(),
        ensures
            final(self).wf(),
            final(self)@ == (BufferView { buf: Seq::empty(), ..old(self)@ }),
            error::opt_text(r) == some_text(old(self)@.buf),
    {
        if self.buf.len() == 0 {
            self.scanned = 0;
            proof {
                assert(self.buf@ =~= Seq::empty());
            }
            return None;
        }
        let out = text::from_chars(&self.buf);
        self.buf = Vec::new();
        self.bytes = 0;
        self.scanned = 0;
        Some(out)
    }
}

impl Default for OutputBuffer {
    fn default() -> (r: Self)
        ensures
            r.wf(),
            r@ == (BufferView { mode: Mode::Line, delimiter: "\n"@, buf: Seq::empty() }),
    {
        OutputBuffer::new()
    }
}

} // verus!
