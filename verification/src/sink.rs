//! Where a pipeline's diagnostic output goes.
//!
//! Three channels exist; only two appear here. Channel 1 (data) is the
//! pipeline's return value and has no write API at all — which is what makes
//! "diagnostics can never enter the data pipe" a property of the type system
//! rather than a rule authors must remember.

use crate::render;
use crate::text;
use vstd::prelude::*;

verus! {

/// Which diagnostic channel a record belongs to.
#[derive(Clone, Copy, Debug, PartialEq, Eq, Structural)]
pub enum Channel {
    /// Channel 3 — progress and commentary.
    Log,
    /// Channel 2 — warnings and diagnostics. Non-fatal: a thrown
    /// `ShellError` still aborts the pipeline. This expresses "warn and keep
    /// going".
    Error,
}

/// A line written to a diagnostic channel.
///
/// The text is sanitized on construction, so a `Record` cannot hold an
/// escape sequence. Diagnostics originate in page-controlled TypeScript,
/// and they reach more than one destination — a pane, a programmatic
/// caller's UI, a log aggregator. Doing it here makes "diagnostics leaving
/// the engine are escape-clean" a property of the type.
#[derive(Debug, PartialEq, Eq)]
pub struct Record {
    channel: Channel,
    text: String,
    /// Written through `ctx.log.write` rather than `ctx.log(line)`: the text
    /// went through the *allowlist* sanitizer, and a sink must emit it
    /// verbatim — no appended newline, no styling wrapper — so partial
    /// writes and in-place rewrites (progress bars) work.
    raw: bool,
}

pub struct RecordView {
    pub channel: Channel,
    pub text: Seq<char>,
    pub raw: bool,
}

impl View for Record {
    type V = RecordView;

    closed spec fn view(&self) -> RecordView {
        RecordView { channel: self.channel, text: self.text@, raw: self.raw }
    }
}

/// May a record hold this text? A diagnostic is one clean line; a raw write
/// holds nothing that leaves its line upward.
pub open spec fn admissible(t: Seq<char>, raw: bool) -> bool {
    if raw {
        render::stays_on_line(t, 0)
    } else {
        render::clean(t, false)
    }
}

impl Record {
    #[verifier::type_invariant]
    spec fn holds_only_admissible_text(self) -> bool {
        admissible(self.text@, self.raw)
    }

    pub fn log(text: &str) -> (r: Self)
        ensures
            r@ == (RecordView {
                channel: Channel::Log,
                text: render::stripped(text@, false),
                raw: false,
            }),
    {
        Record::new(Channel::Log, text)
    }

    pub fn err(text: &str) -> (r: Self)
        ensures
            r@ == (RecordView {
                channel: Channel::Error,
                text: render::stripped(text@, false),
                raw: false,
            }),
    {
        Record::new(Channel::Error, text)
    }

    fn new(channel: Channel, text: &str) -> (r: Self)
        ensures
            r@ == (RecordView { channel, text: render::stripped(text@, false), raw: false }),
    {
        let text_out = render::diagnostic_text(text);
        proof {
            render::stripped_text_is_clean(text@, false);
        }
        Record { channel, text: text_out, raw: false }
    }

    /// A raw write to the log channel: allowlist-sanitized, emitted verbatim.
    pub fn raw_log(text: &str) -> (r: Self)
        ensures
            r@ == (RecordView {
                channel: Channel::Log,
                text: render::writable(text@),
                raw: true,
            }),
    {
        Record::new_raw(Channel::Log, text)
    }

    /// A raw write to the err channel: allowlist-sanitized, emitted verbatim.
    pub fn raw_err(text: &str) -> (r: Self)
        ensures
            r@ == (RecordView {
                channel: Channel::Error,
                text: render::writable(text@),
                raw: true,
            }),
    {
        Record::new_raw(Channel::Error, text)
    }

    /// Sanitized by the allowlist rather than strip-everything: a raw write
    /// may keep `\r` and styling, which is what makes a progress bar
    /// possible. The narrower rules live in `render::writer_text`.
    fn new_raw(channel: Channel, text: &str) -> (r: Self)
        ensures
            r@ == (RecordView { channel, text: render::writable(text@), raw: true }),
    {
        let text_out = render::writer_text(text);
        proof {
            render::raw_writes_cannot_climb(text@);
        }
        Record { channel, text: text_out, raw: true }
    }

    pub fn channel(&self) -> (r: Channel)
        ensures
            r == self@.channel,
    {
        self.channel
    }

    /// The text, which is admissible whatever the record was made of.
    pub fn text(&self) -> (r: &str)
        ensures
            r@ == self@.text,
            admissible(r@, self@.raw),
    {
        proof {
            use_type_invariant(&*self);
        }
        self.text.as_str()
    }

    /// Whether a sink must emit this verbatim (no newline, no styling
    /// wrapper).
    pub fn is_raw(&self) -> (r: bool)
        ensures
            r == self@.raw,
    {
        self.raw
    }
}

/// The exact bytes a record puts on the wire of a real terminal.
///
/// Every record is reset-prefixed, raw or not. The allowlist lets a raw write
/// carry SGR on the argument that a command's styling is bounded by a reset at
/// the command boundary, and that argument fails on the abort path: an aborted
/// command's body never resumes, so its trailing reset never runs. Prefixing
/// per record makes the leak structurally impossible rather than dependent on
/// cleanup that cancellation can skip.
pub open spec fn on_the_wire(r: RecordView) -> Seq<char> {
    if r.raw {
        "\x1b[0m"@ + r.text
    } else {
        "\x1b[0m"@ + r.text + "\n"@
    }
}

/// A raw write otherwise owns its formatting: no appended newline, so a partial
/// write stays partial and a progress bar can redraw in place.
pub fn wire_text(record: &Record) -> (r: String)
    ensures
        r@ == on_the_wire(record@),
{
    let mut out = "\x1b[0m".to_owned();
    out.append(record.text());
    if !record.is_raw() {
        out.append("\n");
    }
    out
}

/// Whatever a record holds, its wire text opens with a reset.
pub proof fn wire_text_is_reset_first(r: RecordView)
    ensures
        text::starts_with(on_the_wire(r), "\x1b[0m"@),
{
    let reset = "\x1b[0m"@;
    assert(on_the_wire(r).subrange(0, reset.len() as int) =~= reset);
}

/// Destination for diagnostics.
pub trait Sink {
    fn write(&mut self, record: Record);

    /// Can the sink accept more output now? One that throttles a fast producer
    /// to display speed says no in between; every other sink absorbs output as
    /// fast as it arrives.
    fn ready(&self) -> (r: bool)
        default_ensures
            r,
    {
        true
    }
}

/// Accumulates records for later retrieval. Backs programmatic `run()`.
pub struct CollectingSink {
    records: Vec<Record>,
}

pub open spec fn records_view(records: Seq<Record>) -> Seq<RecordView> {
    records.map_values(|r: Record| r@)
}

impl View for CollectingSink {
    type V = Seq<RecordView>;

    closed spec fn view(&self) -> Seq<RecordView> {
        records_view(self.records@)
    }
}

/// The texts of the records of a channel, in order.
pub open spec fn channel_lines(records: Seq<RecordView>, channel: Channel) -> Seq<Seq<char>>
    decreases records.len(),
{
    if records.len() == 0 {
        Seq::empty()
    } else {
        let before = channel_lines(records.drop_last(), channel);
        if records.last().channel == channel {
            before.push(records.last().text)
        } else {
            before
        }
    }
}

impl CollectingSink {
    pub fn new() -> (r: Self)
        ensures
            r@.len() == 0,
    {
        CollectingSink { records: Vec::new() }
    }

    pub fn log_lines(&self) -> (r: Vec<String>)
        ensures
            text::texts(r@) == channel_lines(self@, Channel::Log),
    {
        self.lines(Channel::Log)
    }

    pub fn err_lines(&self) -> (r: Vec<String>)
        ensures
            text::texts(r@) == channel_lines(self@, Channel::Error),
    {
        self.lines(Channel::Error)
    }

    fn lines(&self, channel: Channel) -> (r: Vec<String>)
        ensures
            text::texts(r@) == channel_lines(self@, channel),
    {
        let ghost all = self@;
        let mut out: Vec<String> = Vec::new();
        let mut i: usize = 0;
        proof {
            assert(text::texts(out@) =~= Seq::empty());
        }
        while i < self.records.len()
            invariant
                i <= self.records@.len(),
                all == records_view(self.records@),
                text::texts(out@) == channel_lines(all.take(i as int), channel),
            decreases self.records@.len() - i,
        {
            proof {
                assert(all.take(i + 1).drop_last() =~= all.take(i as int));
                assert(all.take(i + 1).last() == self.records@[i as int]@);
            }
            if self.records[i].channel() == channel {
                let ghost before = out@;
                let line = self.records[i].text().to_owned();
                out.push(line);
                proof {
                    assert(text::texts(out@) =~= text::texts(before).push(line@));
                }
            }
            i = i + 1;
        }
        proof {
            assert(all.take(all.len() as int) =~= all);
        }
        out
    }
}

impl Default for CollectingSink {
    fn default() -> (r: Self)
        ensures
            r@.len() == 0,
    {
        CollectingSink::new()
    }
}

impl Sink for CollectingSink {
    fn write(&mut self, record: Record)
        ensures
            final(self)@ == old(self)@.push(record@),
    {
        self.records.push(record);
        proof {
            assert(self@ =~= old(self)@.push(record@));
        }
    }
}

/// Discards everything. For paths that have no destination yet.
pub struct NullSink;

impl Sink for NullSink {
    fn write(&mut self, _record: Record) {
    }
}

} // verus!
