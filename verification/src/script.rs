//! Commands that the host registered: a function of the host, called with the
//! arguments, the piped value and a context of writers.
//!
//! The program makes the calls into the host and moves the items; what it is to
//! do next, and what each outcome means, is decided here. An async iterable
//! yields items over time, and a closed channel (`head` took what it wanted)
//! stops it, so that its cleanup runs.

use crate::convert;
use crate::error::{ErrorKind, ErrorView, ShellError, Span};
use crate::outbuf;
use crate::outbuf::{BufferView, Mode, OutputBuffer};
use crate::registry;
use crate::registry::{DataView, PipelineData};
use crate::render;
use crate::sink;
use crate::sink::{Channel, Record, RecordView};
use crate::stream;
use crate::text;
use crate::value;
use crate::value::{Value, ValueView};
use vstd::prelude::*;

verus! {

broadcast use crate::value::value_view_cases;

/// What the host threw: the `message` and `help` of an error object, or the
/// value itself as text.
pub struct Thrown {
    pub message: Option<String>,
    pub help: Option<String>,
    pub text: Option<String>,
}

pub struct ThrownView {
    pub message: Option<Seq<char>>,
    pub help: Option<Seq<char>>,
    pub text: Option<Seq<char>>,
}

impl View for Thrown {
    type V = ThrownView;

    open spec fn view(&self) -> ThrownView {
        ThrownView {
            message: crate::error::opt_text(self.message),
            help: crate::error::opt_text(self.help),
            text: crate::error::opt_text(self.text),
        }
    }
}

/// An error that a command reports under its name.
pub open spec fn command_error(cmd: Seq<char>, msg: Seq<char>, span: Span) -> ErrorView {
    ErrorView::bare(ErrorKind::Runtime, "`"@ + cmd + "`: "@ + msg).placed(span)
}

/// A thrown value as a shell error. Error objects keep their message and help.
pub open spec fn thrown_as(t: ThrownView, span: Span, cmd: Seq<char>) -> ErrorView {
    match t.message {
        Some(msg) => match t.help {
            Some(help) => command_error(cmd, msg, span).helped(help),
            None => command_error(cmd, msg, span),
        },
        None => match t.text {
            Some(text) => command_error(cmd, text, span),
            None => command_error(cmd, "unknown error"@, span),
        },
    }
}

fn new_command_error(cmd: &str, msg: &str, span: Span) -> (r: ShellError)
    ensures
        r@ == command_error(cmd@, msg@, span),
{
    let mut full = text::around("`", cmd, "`: ");
    full.append(msg);
    ShellError::runtime(full.as_str()).with_span(span)
}

/// Map a thrown or rejected value to a `ShellError`.
pub fn js_error_to_shell(t: &Thrown, span: Span, cmd: &str) -> (r: ShellError)
    ensures
        r@ == thrown_as(t@, span, cmd@),
{
    match &t.message {
        Some(msg) => {
            let e = new_command_error(cmd, msg.as_str(), span);
            match &t.help {
                Some(help) => e.with_help(help.as_str()),
                None => e,
            }
        },
        None => match &t.text {
            Some(s) => new_command_error(cmd, s.as_str(), span),
            None => new_command_error(cmd, "unknown error", span),
        },
    }
}

/// A buffering mode by its name; any other name is line mode.
pub open spec fn mode_of(name: Seq<char>) -> Mode {
    if name == "byte"@ {
        Mode::Byte
    } else if name == "block"@ {
        Mode::Block
    } else {
        Mode::Line
    }
}

pub fn mode_named(name: &str) -> (r: Mode)
    ensures
        r == mode_of(name@),
{
    if text::same_text(name, "byte") {
        Mode::Byte
    } else if text::same_text(name, "block") {
        Mode::Block
    } else {
        Mode::Line
    }
}

/// What a command does with its writers.
///
/// The line call and the raw write are different APIs, not two spellings of
/// one: `ctx.log('msg')` passes a *message* -- the shell owns the framing and
/// strips everything -- while `ctx.log.write('\r50%')` passes *terminal bytes*:
/// the command owns the framing, and the allowlist sanitizer plus
/// `OutputBuffer` is what makes that safe. Only writing, flushing and the mode
/// touch the buffer; the plain call bypasses it entirely, so mixing the two on
/// one channel reorders output.
pub enum WriterCall {
    Line(String),
    Write(String),
    Flush,
    Mode(String, Option<String>),
}

/// The writers of one command: a buffer per channel.
pub struct Writers {
    log: OutputBuffer,
    err: OutputBuffer,
}

#[verifier::ext_equal]
pub struct WritersView {
    pub log: BufferView,
    pub err: BufferView,
}

impl View for Writers {
    type V = WritersView;

    closed spec fn view(&self) -> WritersView {
        WritersView { log: self.log@, err: self.err@ }
    }
}

/// A cooked record of a channel.
pub open spec fn cooked(channel: Channel, t: Seq<char>) -> RecordView {
    RecordView { channel, text: render::stripped(t, false), raw: false }
}

/// A raw record of a channel.
pub open spec fn raw(channel: Channel, t: Seq<char>) -> RecordView {
    RecordView { channel, text: render::writable(t), raw: true }
}

pub open spec fn raw_opt(channel: Channel, t: Option<Seq<char>>) -> Option<RecordView> {
    match t {
        Some(s) => Some(raw(channel, s)),
        None => None,
    }
}

/// A channel's buffer after a call, and the record that goes out at once.
pub open spec fn writer_step(b: BufferView, channel: Channel, call: WriterCall) -> (
    BufferView,
    Option<RecordView>,
) {
    match call {
        WriterCall::Line(t) => (b, Some(cooked(channel, t@))),
        WriterCall::Write(t) => {
            let (after, out) = outbuf::written(b, t@);
            (after, raw_opt(channel, out))
        },
        WriterCall::Flush => (
            BufferView { buf: Seq::empty(), ..b },
            raw_opt(channel, outbuf::some_text(b.buf)),
        ),
        WriterCall::Mode(name, delimiter) => (
            BufferView {
                mode: mode_of(name@),
                delimiter: match delimiter {
                    Some(d) => if d@.len() > 0 {
                        d@
                    } else {
                        b.delimiter
                    },
                    None => b.delimiter,
                },
                ..b
            },
            None,
        ),
    }
}

/// What the buffers still held, the log first.
pub open spec fn tails(w: WritersView) -> Seq<RecordView> {
    let log = match raw_opt(Channel::Log, outbuf::some_text(w.log.buf)) {
        Some(r) => seq![r],
        None => Seq::empty(),
    };
    match raw_opt(Channel::Error, outbuf::some_text(w.err.buf)) {
        Some(r) => log.push(r),
        None => log,
    }
}

pub open spec fn emptied(w: WritersView) -> WritersView {
    WritersView {
        log: BufferView { buf: Seq::empty(), ..w.log },
        err: BufferView { buf: Seq::empty(), ..w.err },
    }
}

/// A second end yields nothing: whichever path ends a run may drain its
/// writers, after another already did.
pub proof fn draining_twice_yields_nothing(w: WritersView)
    ensures
        tails(emptied(w)) == Seq::<RecordView>::empty(),
{
}

pub open spec fn opt_record(r: Option<Record>) -> Option<RecordView> {
    match r {
        Some(x) => Some(x@),
        None => None,
    }
}

fn raw_record(channel: Channel, t: &str) -> (r: Record)
    ensures
        r@ == raw(channel, t@),
{
    match channel {
        Channel::Log => Record::raw_log(t),
        Channel::Error => Record::raw_err(t),
    }
}

fn write_to(buffer: &mut OutputBuffer, channel: Channel, call: WriterCall) -> (r: Option<Record>)
    requires
        old(buffer).wf(),
    ensures
        final(buffer).wf(),
        (final(buffer)@, opt_record(r)) == writer_step(old(buffer)@, channel, call),
{
    match call {
        WriterCall::Line(t) => match channel {
            Channel::Log => Some(Record::log(t.as_str())),
            Channel::Error => Some(Record::err(t.as_str())),
        },
        WriterCall::Write(t) => match buffer.write(t.as_str()) {
            Some(out) => Some(raw_record(channel, out.as_str())),
            None => None,
        },
        WriterCall::Flush => match buffer.flush() {
            Some(out) => Some(raw_record(channel, out.as_str())),
            None => None,
        },
        WriterCall::Mode(name, delimiter) => {
            buffer.set_mode(mode_named(name.as_str()), delimiter);
            None
        },
    }
}

impl Writers {
    pub closed spec fn wf(self) -> bool {
        self.log.wf() && self.err.wf()
    }

    pub fn new() -> (r: Self)
        ensures
            r.wf(),
            r@ == (WritersView {
                log: BufferView { mode: Mode::Line, delimiter: "\n"@, buf: Seq::empty() },
                err: BufferView { mode: Mode::Line, delimiter: "\n"@, buf: Seq::empty() },
            }),
    {
        Writers { log: OutputBuffer::new(), err: OutputBuffer::new() }
    }

    /// A call of a writer, and the record that goes to the sink at once.
    pub fn call(&mut self, channel: Channel, call: WriterCall) -> (r: Option<Record>)
        requires
            old(self).wf(),
        ensures
            final(self).wf(),
            match channel {
                Channel::Log => ({
                    let (after, out) = writer_step(old(self)@.log, channel, call);
                    opt_record(r) == out && final(self)@ == (WritersView {
                        log: after,
                        ..old(self)@
                    })
                }),
                Channel::Error => ({
                    let (after, out) = writer_step(old(self)@.err, channel, call);
                    opt_record(r) == out && final(self)@ == (WritersView {
                        err: after,
                        ..old(self)@
                    })
                }),
            },
    {
        match channel {
            Channel::Log => write_to(&mut self.log, channel, call),
            Channel::Error => write_to(&mut self.err, channel, call),
        }
    }

    /// The run ended, by whichever path: what is still buffered goes out, so
    /// that nothing is lost.
    pub fn finish(&mut self) -> (r: Vec<Record>)
        requires
            old(self).wf(),
        ensures
            final(self).wf(),
            final(self)@ == emptied(old(self)@),
            sink::records_view(r@) == tails(old(self)@),
    {
        let ghost was = self@;
        let mut out: Vec<Record> = Vec::new();
        if let Some(t) = self.log.finish() {
            out.push(raw_record(Channel::Log, t.as_str()));
        }
        let ghost first = sink::records_view(out@);
        proof {
            assert(first =~= match raw_opt(Channel::Log, outbuf::some_text(was.log.buf)) {
                Some(r) => seq![r],
                None => Seq::empty(),
            });
        }
        if let Some(t) = self.err.finish() {
            let rec = raw_record(Channel::Error, t.as_str());
            let ghost rv = rec@;
            out.push(rec);
            proof {
                assert(sink::records_view(out@) =~= first.push(rv));
            }
        }
        out
    }
}

/// What the host's function gave back.
pub enum Returned {
    Undefined,
    Plain(Result<Value, String>),
    /// An async iterable: its items come over time.
    Iterable,
}

/// What happened outside.
pub enum ScriptEvent {
    /// An item of the input came in.
    Took(PipelineData),
    /// The input ended.
    InputEnded,
    /// A call into the host threw, or its promise was rejected.
    Threw(Thrown),
    Answered(Returned),
    /// The iterator has no more items.
    Exhausted,
    /// The iterator yielded.
    Yielded(Result<Value, String>),
    /// The channel took the item.
    Sent,
    /// Nothing reads the channel any more.
    Closed,
    /// The other stages had their turn, and the channel is still open.
    Resumed,
    /// The iterator was stopped, and its cleanup is done.
    Stopped,
}

/// What the program is to do.
pub enum ScriptAction {
    /// Receive the next item of the input.
    Receive,
    /// Call the function with this input.
    Call(Value),
    /// Send an item.
    Send(PipelineData),
    /// Ask the iterator for its next item.
    Pull,
    /// Let the other stages have their turn, then look at the channel.
    ///
    /// A send only proves that the channel had space, not that downstream is
    /// still reading: `head N` can reach its limit and drop its receiver only
    /// *after* processing what was just sent. Without that turn a live source
    /// would block on a pull that downstream no longer wants.
    Rest,
    /// Call the iterator's `return()`, so that its cleanup runs.
    Stop,
    /// The stage is over.
    Finish(Option<ShellError>),
}

pub enum ActionView {
    Receive,
    Call(ValueView),
    Send(DataView),
    Pull,
    Rest,
    Stop,
    Finish(Option<ErrorView>),
}

impl View for ScriptAction {
    type V = ActionView;

    open spec fn view(&self) -> ActionView {
        match self {
            ScriptAction::Receive => ActionView::Receive,
            ScriptAction::Call(v) => ActionView::Call(v@),
            ScriptAction::Send(d) => ActionView::Send(d@),
            ScriptAction::Pull => ActionView::Pull,
            ScriptAction::Rest => ActionView::Rest,
            ScriptAction::Stop => ActionView::Stop,
            ScriptAction::Finish(e) => ActionView::Finish(crate::pipeline::failure_view(*e)),
        }
    }
}

/// Where a host command stands.
pub enum Phase {
    /// Gathering the input.
    Gathering(Vec<Value>),
    /// Waiting for the function.
    Calling,
    /// Sending what came back, the next item last.
    Sending { items: Vec<PipelineData>, streaming: bool },
    /// Waiting for the iterator.
    Pulling,
    /// Giving the other stages their turn.
    Resting,
    /// Waiting for the iterator's cleanup.
    Stopping,
    Over,
}

#[verifier::ext_equal]
pub enum PhaseView {
    Gathering(Seq<ValueView>),
    Calling,
    Sending { items: Seq<DataView>, streaming: bool },
    Pulling,
    Resting,
    Stopping,
    Over,
}

impl View for Phase {
    type V = PhaseView;

    open spec fn view(&self) -> PhaseView {
        match self {
            Phase::Gathering(values) => PhaseView::Gathering(value::values_view(values@)),
            Phase::Calling => PhaseView::Calling,
            Phase::Sending { items, streaming } => PhaseView::Sending {
                items: registry::items_view(items@).reverse(),
                streaming: *streaming,
            },
            Phase::Pulling => PhaseView::Pulling,
            Phase::Resting => PhaseView::Resting,
            Phase::Stopping => PhaseView::Stopping,
            Phase::Over => PhaseView::Over,
        }
    }
}

/// Send the next of some items, or go on behind them.
pub open spec fn sending(items: Seq<DataView>, streaming: bool) -> (PhaseView, ActionView) {
    if items.len() > 0 {
        (PhaseView::Sending { items: items.skip(1), streaming }, ActionView::Send(items[0]))
    } else if streaming {
        (PhaseView::Resting, ActionView::Rest)
    } else {
        (PhaseView::Over, ActionView::Finish(None))
    }
}

/// The stage failed.
pub open spec fn failing(e: ErrorView) -> (PhaseView, ActionView) {
    (PhaseView::Over, ActionView::Finish(Some(e)))
}

/// The items of a value that came back, or the failure where it has no
/// counterpart here.
pub open spec fn sending_value(
    cmd: Seq<char>,
    span: Span,
    v: Result<ValueView, Seq<char>>,
    streaming: bool,
) -> (PhaseView, ActionView) {
    match v {
        Ok(x) => sending(stream::flattened(DataView::Value(x)), streaming),
        Err(msg) => failing(command_error(cmd, msg, span)),
    }
}

/// The next phase of a host command and what to do, for an event that its phase
/// waits for.
pub open spec fn script_step(
    phase: PhaseView,
    event: ScriptEvent,
    cmd: Seq<char>,
    span: Span,
) -> Option<(PhaseView, ActionView)> {
    match (phase, event) {
        (PhaseView::Gathering(values), ScriptEvent::Took(d)) => Some(
            (PhaseView::Gathering(values.push(d@.value())), ActionView::Receive),
        ),
        (PhaseView::Gathering(values), ScriptEvent::InputEnded) => Some(
            (PhaseView::Calling, ActionView::Call(stream::collected(values).value())),
        ),
        (PhaseView::Calling, ScriptEvent::Threw(t)) => Some(failing(thrown_as(t@, span, cmd))),
        (PhaseView::Calling, ScriptEvent::Answered(r)) => Some(
            match r {
                Returned::Undefined => sending(Seq::empty(), false),
                Returned::Plain(v) => sending_value(cmd, span, convert::conversion(v), false),
                Returned::Iterable => (PhaseView::Pulling, ActionView::Pull),
            },
        ),
        (PhaseView::Pulling, ScriptEvent::Threw(t)) => Some(failing(thrown_as(t@, span, cmd))),
        (PhaseView::Pulling, ScriptEvent::Exhausted) => Some(
            (PhaseView::Over, ActionView::Finish(None)),
        ),
        (PhaseView::Pulling, ScriptEvent::Yielded(v)) => Some(
            sending_value(cmd, span, convert::conversion(v), true),
        ),
        (PhaseView::Sending { items, streaming }, ScriptEvent::Sent) => Some(
            sending(items, streaming),
        ),
        (PhaseView::Sending { items, streaming }, ScriptEvent::Closed) => Some(
            if streaming {
                (PhaseView::Stopping, ActionView::Stop)
            } else {
                (PhaseView::Over, ActionView::Finish(None))
            },
        ),
        (PhaseView::Resting, ScriptEvent::Resumed) => Some((PhaseView::Pulling, ActionView::Pull)),
        (PhaseView::Resting, ScriptEvent::Closed) => Some((PhaseView::Stopping, ActionView::Stop)),
        (PhaseView::Stopping, ScriptEvent::Stopped) => Some(
            (PhaseView::Over, ActionView::Finish(None)),
        ),
        _ => None,
    }
}

/// A command that is over does nothing more, and a phase ends the stage exactly
/// with the step that makes it over.
pub proof fn over_is_over(phase: PhaseView, event: ScriptEvent, cmd: Seq<char>, span: Span)
    ensures
        phase is Over ==> script_step(phase, event, cmd, span) is None,
        script_step(phase, event, cmd, span) matches Some((next, action)) ==> (next is Over <==>
            action is Finish),
{
}

/// A closed channel stops an iterator before the stage ends: the iterator is
/// never left running behind `head`.
pub proof fn closing_stops_the_iterator(phase: PhaseView, cmd: Seq<char>, span: Span)
    requires
        phase is Resting || (phase matches PhaseView::Sending { items, streaming } && streaming),
    ensures
        script_step(phase, ScriptEvent::Closed, cmd, span) == Some(
            (PhaseView::Stopping, ActionView::Stop),
        ),
        script_step(PhaseView::Stopping, ScriptEvent::Stopped, cmd, span) == Some(
            (PhaseView::Over, ActionView::Finish(None)),
        ),
{
}

/// Items go out in the order in which they came, the first one at once.
pub proof fn yields_go_out_in_order(items: Seq<DataView>, streaming: bool, cmd: Seq<char>, span: Span)
    requires
        items.len() > 0,
    ensures
        sending(items, streaming) == (
            PhaseView::Sending { items: items.skip(1), streaming },
            ActionView::Send(items[0]),
        ),
        script_step(
            PhaseView::Sending { items: items.skip(1), streaming },
            ScriptEvent::Sent,
            cmd,
            span,
        ) == Some(sending(items.skip(1), streaming)),
{
}

/// A host command in a pipeline.
pub struct ScriptRun {
    pub name: String,
    pub span: Span,
    pub phase: Phase,
}

/// Items to send, turned round so that the next one is last.
fn turned(items: Vec<PipelineData>) -> (r: Vec<PipelineData>)
    ensures
        registry::items_view(r@) == registry::items_view(items@).reverse(),
{
    let ghost all = registry::items_view(items@);
    let mut from = items;
    let mut out: Vec<PipelineData> = Vec::new();
    proof {
        assert(registry::items_view(out@) + registry::items_view(from@).reverse() =~= all.reverse());
    }
    while from.len() > 0
        invariant
            registry::items_view(out@) + registry::items_view(from@).reverse() == all.reverse(),
        decreases from@.len(),
    {
        let ghost before = registry::items_view(out@);
        let ghost left = registry::items_view(from@);
        match from.pop() {
            Some(d) => {
                let ghost dv = d@;
                out.push(d);
                proof {
                    let fewer = registry::items_view(from@);
                    assert(registry::items_view(out@) =~= before.push(dv));
                    assert(left =~= fewer.push(dv));
                    assert(left.reverse() =~= seq![dv] + fewer.reverse());
                    assert(before.push(dv) + fewer.reverse() =~= before + left.reverse());
                }
            },
            None => {},
        }
    }
    proof {
        assert(registry::items_view(from@).reverse() =~= Seq::empty());
        assert(registry::items_view(out@) =~= all.reverse());
    }
    out
}

impl ScriptRun {
    pub fn new(name: String, span: Span) -> (r: Self)
        ensures
            r.name@ == name@,
            r.span == span,
            r.phase@ == PhaseView::Gathering(Seq::empty()),
    {
        let values: Vec<Value> = Vec::new();
        proof {
            assert(value::values_view(values@) =~= Seq::empty());
        }
        ScriptRun { name, span, phase: Phase::Gathering(values) }
    }

    /// Send the next item, or go on behind the last.
    fn send_next(&mut self, items: Vec<PipelineData>, streaming: bool) -> (r: ScriptAction)
        ensures
            (final(self).phase@, r@) == sending(
                registry::items_view(items@).reverse(),
                streaming,
            ),
            final(self).name == old(self).name,
            final(self).span == old(self).span,
    {
        let mut items = items;
        let ghost all = registry::items_view(items@).reverse();
        match items.pop() {
            Some(d) => {
                proof {
                    assert(all[0] == d@);
                    assert(registry::items_view(items@).reverse() =~= all.skip(1));
                }
                self.phase = Phase::Sending { items, streaming };
                ScriptAction::Send(d)
            },
            None => {
                if streaming {
                    self.phase = Phase::Resting;
                    ScriptAction::Rest
                } else {
                    self.phase = Phase::Over;
                    ScriptAction::Finish(None)
                }
            },
        }
    }

    fn fail(&mut self, e: ShellError) -> (r: ScriptAction)
        ensures
            (final(self).phase@, r@) == failing(e@),
            final(self).name == old(self).name,
            final(self).span == old(self).span,
    {
        self.phase = Phase::Over;
        ScriptAction::Finish(Some(e))
    }

    fn send_value(&mut self, v: Result<Value, String>, streaming: bool) -> (r: ScriptAction)
        ensures
            (final(self).phase@, r@) == sending_value(
                old(self).name@,
                old(self).span,
                convert::conversion(v),
                streaming,
            ),
            final(self).name == old(self).name,
            final(self).span == old(self).span,
    {
        match v {
            Ok(x) => {
                let items = turned(stream::flatten(PipelineData::Value(x)));
                proof {
                    let flat = stream::flattened(DataView::Value(x@));
                    assert(flat.reverse().reverse() =~= flat);
                }
                self.send_next(items, streaming)
            },
            Err(msg) => {
                let e = new_command_error(self.name.as_str(), msg.as_str(), self.span);
                self.fail(e)
            },
        }
    }

    /// Take an event. An event that the command does not wait for changes
    /// nothing.
    pub fn step(&mut self, event: ScriptEvent) -> (r: Option<ScriptAction>)
        ensures
            match script_step(old(self).phase@, event, old(self).name@, old(self).span) {
                Some((next, action)) => (r matches Some(x) && x@ == action) && final(self).phase@
                    == next,
                None => r is None && final(self).phase@ == old(self).phase@,
            },
            final(self).name == old(self).name,
            final(self).span == old(self).span,
    {
        let mut phase = Phase::Over;
        std::mem::swap(&mut phase, &mut self.phase);
        match (phase, event) {
            (Phase::Gathering(values), ScriptEvent::Took(d)) => {
                let mut values = values;
                let ghost before = value::values_view(values@);
                let v = d.into_value();
                let ghost vv = v@;
                values.push(v);
                proof {
                    assert(value::values_view(values@) =~= before.push(vv));
                }
                self.phase = Phase::Gathering(values);
                Some(ScriptAction::Receive)
            },
            (Phase::Gathering(values), ScriptEvent::InputEnded) => {
                self.phase = Phase::Calling;
                Some(ScriptAction::Call(stream::collect(values).into_value()))
            },
            (Phase::Calling, ScriptEvent::Threw(t)) => {
                let e = js_error_to_shell(&t, self.span, self.name.as_str());
                Some(self.fail(e))
            },
            (Phase::Calling, ScriptEvent::Answered(r)) => match r {
                Returned::Undefined => {
                    self.phase = Phase::Over;
                    Some(ScriptAction::Finish(None))
                },
                Returned::Plain(v) => Some(self.send_value(v, false)),
                Returned::Iterable => {
                    self.phase = Phase::Pulling;
                    Some(ScriptAction::Pull)
                },
            },
            (Phase::Pulling, ScriptEvent::Threw(t)) => {
                let e = js_error_to_shell(&t, self.span, self.name.as_str());
                Some(self.fail(e))
            },
            (Phase::Pulling, ScriptEvent::Exhausted) => {
                self.phase = Phase::Over;
                Some(ScriptAction::Finish(None))
            },
            (Phase::Pulling, ScriptEvent::Yielded(v)) => Some(self.send_value(v, true)),
            (Phase::Sending { items, streaming }, ScriptEvent::Sent) => Some(
                self.send_next(items, streaming),
            ),
            (Phase::Sending { items, streaming }, ScriptEvent::Closed) => {
                if streaming {
                    self.phase = Phase::Stopping;
                    Some(ScriptAction::Stop)
                } else {
                    self.phase = Phase::Over;
                    Some(ScriptAction::Finish(None))
                }
            },
            (Phase::Resting, ScriptEvent::Resumed) => {
                self.phase = Phase::Pulling;
                Some(ScriptAction::Pull)
            },
            (Phase::Resting, ScriptEvent::Closed) => {
                self.phase = Phase::Stopping;
                Some(ScriptAction::Stop)
            },
            (Phase::Stopping, ScriptEvent::Stopped) => {
                self.phase = Phase::Over;
                Some(ScriptAction::Finish(None))
            },
            (other, _) => {
                self.phase = other;
                None
            },
        }
    }
}

} // verus!
