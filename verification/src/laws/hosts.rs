//! What a command of the host is called with, what becomes of what it gives back,
//! and what comes of its writing.

use crate::error::{ErrorKind, Span};
use crate::laws::display;
use crate::outbuf::{BufferView, Mode};
use crate::registry::DataView;
use crate::render;
use crate::script;
use crate::script::{ActionView, PhaseView, Returned, ScriptEvent, Thrown, WriterCall, WritersView};
use crate::sink::{Channel, RecordView};
use crate::stream;
use crate::text;
use crate::value::{Value, ValueView};
use vstd::prelude::*;

verus! {

broadcast use crate::value::value_view_cases;

/// Each item that comes in is kept after those before it, and the function is
/// called when there are no more: with null where nothing came, with the item where
/// one came, and with the list of them where more did.
pub proof fn the_function_gets_the_input(
    values: Seq<ValueView>,
    d: crate::registry::PipelineData,
    cmd: Seq<char>,
    span: Span,
)
    ensures
        script::script_step(PhaseView::Gathering(values), ScriptEvent::Took(d), cmd, span) matches
            Some((PhaseView::Gathering(kept), ActionView::Receive)) && kept.len() == values.len()
            + 1 && kept.last() == d@.value() && kept.drop_last() == values,
        script::script_step(PhaseView::Gathering(values), ScriptEvent::InputEnded, cmd, span)
            matches Some((PhaseView::Calling, ActionView::Call(v))) && {
            &&& values.len() == 0 ==> v == ValueView::Null
            &&& values.len() == 1 ==> v == values[0]
            &&& values.len() > 1 ==> v == ValueView::List(values)
        },
{
    assert(values.push(d@.value()).drop_last() =~= values);
}

/// What a collecting command takes of a stream that ran dry is an empty list, not
/// nothing; nothing is what the first command of a line takes. One item is taken as
/// it is, and more of them as their list.
pub proof fn collectors_take_the_whole_stream(values: Seq<ValueView>)
    ensures
        values.len() == 0 ==> stream::gathered(values, true) == DataView::Empty,
        values.len() == 0 ==> stream::gathered(values, false).value() == ValueView::List(values),
        forall|first: bool|
            values.len() == 1 ==> #[trigger] stream::gathered(values, first).value() == values[0],
        forall|first: bool|
            values.len() > 1 ==> #[trigger] stream::gathered(values, first).value()
                == ValueView::List(values),
{
    if values.len() == 0 {
        assert(values =~= Seq::empty());
    }
}

/// What a command is told to do when it has just been told something and its item
/// was taken `n` times over.
pub open spec fn sending_on(
    at: (PhaseView, ActionView),
    n: nat,
    cmd: Seq<char>,
    span: Span,
) -> (PhaseView, ActionView)
    decreases n,
{
    if n == 0 {
        at
    } else {
        match script::script_step(
            sending_on(at, (n - 1) as nat, cmd, span).0,
            ScriptEvent::Sent,
            cmd,
            span,
        ) {
            Some(next) => next,
            None => sending_on(at, (n - 1) as nat, cmd, span),
        }
    }
}

proof fn items_go_out(
    items: Seq<DataView>,
    streaming: bool,
    n: nat,
    cmd: Seq<char>,
    span: Span,
)
    requires
        n <= items.len(),
    ensures
        sending_on(script::sending(items, streaming), n, cmd, span) == script::sending(
            items.skip(n as int),
            streaming,
        ),
    decreases n,
{
    if n == 0 {
        assert(items.skip(0) =~= items);
    } else {
        items_go_out(items, streaming, (n - 1) as nat, cmd, span);
        let left = items.skip(n - 1);
        assert(left.skip(1) =~= items.skip(n as int));
    }
}

/// The `n`-th thing that a command is told to do after an answer or a yield.
pub open spec fn told(
    phase: PhaseView,
    event: ScriptEvent,
    n: nat,
    cmd: Seq<char>,
    span: Span,
) -> ActionView {
    match script::script_step(phase, event, cmd, span) {
        Some(at) => sending_on(at, n, cmd, span).1,
        None => ActionView::Finish(None),
    }
}

/// The elements of a list that a function gives back are sent one after the other,
/// and then the command is over.
pub proof fn lists_are_sent_item_by_item(v: Value, n: nat, cmd: Seq<char>, span: Span)
    requires
        v@ is List,
    ensures
        ({
            let items = v@->List_0;
            let event = ScriptEvent::Answered(Returned::Plain(Ok(v)));
            &&& n < items.len() ==> told(PhaseView::Calling, event, n, cmd, span)
                == ActionView::Send(DataView::Value(items[n as int]))
            &&& n == items.len() ==> told(PhaseView::Calling, event, n, cmd, span)
                == ActionView::Finish(None)
        }),
{
    let items = v@->List_0;
    if n <= items.len() {
        items_go_out(stream::as_items(items), false, n, cmd, span);
    }
}

/// Any other value is sent as it is; nothing at all is sent where the function gave
/// nothing back.
pub proof fn other_values_are_sent_whole(v: Value, cmd: Seq<char>, span: Span)
    requires
        !(v@ is List),
    ensures
        told(PhaseView::Calling, ScriptEvent::Answered(Returned::Plain(Ok(v))), 0, cmd, span)
            == ActionView::Send(DataView::Value(v@)),
        told(PhaseView::Calling, ScriptEvent::Answered(Returned::Plain(Ok(v))), 1, cmd, span)
            == ActionView::Finish(None),
        told(PhaseView::Calling, ScriptEvent::Answered(Returned::Undefined), 0, cmd, span)
            == ActionView::Finish(None),
{
    let items = seq![DataView::Value(v@)];
    assert(stream::flattened(DataView::Value(v@)) == items);
    items_go_out(items, false, 0, cmd, span);
    items_go_out(items, false, 1, cmd, span);
    assert(items.skip(0) =~= items);
    assert(items.skip(1).len() == 0);
}

/// An iterator is asked for its first item, each item that it yields is sent, the
/// other commands have their turn, and then it is asked for the next, until it has no
/// more.
pub proof fn iterators_are_pulled(v: Value, cmd: Seq<char>, span: Span)
    requires
        !(v@ is List),
    ensures
        told(PhaseView::Calling, ScriptEvent::Answered(Returned::Iterable), 0, cmd, span)
            == ActionView::Pull,
        told(PhaseView::Pulling, ScriptEvent::Yielded(Ok(v)), 0, cmd, span) == ActionView::Send(
            DataView::Value(v@),
        ),
        told(PhaseView::Pulling, ScriptEvent::Yielded(Ok(v)), 1, cmd, span) == ActionView::Rest,
        told(PhaseView::Resting, ScriptEvent::Resumed, 0, cmd, span) == ActionView::Pull,
        told(PhaseView::Pulling, ScriptEvent::Exhausted, 0, cmd, span) == ActionView::Finish(None),
{
    let items = seq![DataView::Value(v@)];
    assert(stream::flattened(DataView::Value(v@)) == items);
    items_go_out(items, true, 0, cmd, span);
    items_go_out(items, true, 1, cmd, span);
    assert(items.skip(0) =~= items);
    assert(items.skip(1).len() == 0);
}

/// Does the command end with an error that names it and says this?
pub open spec fn fails_with(action: ActionView, cmd: Seq<char>, said: Seq<char>, span: Span) -> bool {
    action matches ActionView::Finish(Some(e)) && e.kind == ErrorKind::Runtime && e.msg == "`"@
        + cmd + "`: "@ + said && e.span == Some(span)
}

/// What the host throws ends the command with an error that names the command and
/// says what was thrown, where the command stands in the line: the message of an error
/// object, with the help that it has, and any other value as text. A value that the
/// shell does not have ends it too.
pub proof fn thrown_errors_are_told(t: Thrown, said: String, cmd: Seq<char>, span: Span)
    ensures
        forall|phase: PhaseView|
            phase is Calling || phase is Pulling ==> {
                let action = #[trigger] told(phase, ScriptEvent::Threw(t), 0, cmd, span);
                &&& t.message matches Some(m) ==> fails_with(action, cmd, m@, span)
                &&& t.message matches Some(m) ==> help_of(action) == crate::error::opt_text(t.help)
                &&& t.message is None ==> help_of(action) is None
                &&& t.message is None && t.text is Some ==> fails_with(
                    action,
                    cmd,
                    t.text->Some_0@,
                    span,
                )
                &&& t.message is None && t.text is None ==> fails_with(
                    action,
                    cmd,
                    "unknown error"@,
                    span,
                )
            },
        fails_with(
            told(
                PhaseView::Calling,
                ScriptEvent::Answered(Returned::Plain(Err(said))),
                0,
                cmd,
                span,
            ),
            cmd,
            said@,
            span,
        ),
        fails_with(
            told(PhaseView::Pulling, ScriptEvent::Yielded(Err(said)), 0, cmd, span),
            cmd,
            said@,
            span,
        ),
{
}

pub open spec fn help_of(action: ActionView) -> Option<Seq<char>> {
    match action {
        ActionView::Finish(Some(e)) => e.help,
        _ => None,
    }
}

/// A text without control characters.
pub open spec fn plain(t: Seq<char>) -> bool {
    forall|k: int| 0 <= k < t.len() ==> !text::control(#[trigger] t[k])
}

proof fn plain_is_writable(t: Seq<char>)
    requires
        plain(t),
    ensures
        render::writable(t) == t,
    decreases t.len(),
{
    if t.len() == 0 {
        assert(t =~= Seq::empty());
        display::plain_writes_go_out('a', t);
    } else {
        let rest = t.drop_first();
        assert(plain(rest)) by {
            assert forall|k: int| 0 <= k < rest.len() implies !text::control(
                #[trigger] rest[k],
            ) by {
                assert(rest[k] == t[k + 1]);
            }
        }
        plain_is_writable(rest);
        assert(!text::control(t[0]));
        display::plain_writes_go_out(t[0], rest);
        assert(seq![t[0]] + rest =~= t);
    }
}

/// A message goes out at once, as it is, on the channel it was given to, past what
/// the channel's buffer holds.
pub proof fn messages_go_out_at_once(b: BufferView, channel: Channel, t: String)
    requires
        plain(t@),
    ensures
        script::writer_step(b, channel, WriterCall::Line(t)) == (
            b,
            Some(RecordView { channel, text: t@, raw: false }),
        ),
{
    display::plain_text_shows(t@, Seq::empty(), false);
    assert(t@ + Seq::<char>::empty() =~= t@);
    assert(render::stripped(Seq::empty(), false) =~= Seq::empty());
}

/// A channel in byte mode writes each text at once.
pub proof fn byte_writes_go_out_at_once(b: BufferView, channel: Channel, byte: String, t: String)
    requires
        byte@ == "byte"@,
        b.buf.len() == 0,
        t@.len() > 0,
        plain(t@),
    ensures
        ({
            let (ready, none) = script::writer_step(b, channel, WriterCall::Mode(byte, None));
            let (after, out) = script::writer_step(ready, channel, WriterCall::Write(t));
            &&& none is None
            &&& out == Some(RecordView { channel, text: t@, raw: true })
            &&& after.buf.len() == 0
        }),
{
    plain_is_writable(t@);
    assert(b.buf + t@ =~= t@);
}

/// A channel in block mode holds what is written to it and gives it all when it is
/// flushed, in the order in which it was written; a second flush gives nothing.
pub proof fn blocks_go_out_when_flushed(
    b: BufferView,
    channel: Channel,
    block: String,
    s: String,
    t: String,
)
    requires
        block@ == "block"@,
        b.buf.len() == 0,
        plain(s@),
        plain(t@),
        s@.len() > 0,
        text::byte_len(s@ + t@) < 8192,
    ensures
        ({
            let ready = script::writer_step(b, channel, WriterCall::Mode(block, None)).0;
            let (one, no) = script::writer_step(ready, channel, WriterCall::Write(s));
            let (two, none) = script::writer_step(one, channel, WriterCall::Write(t));
            let (three, out) = script::writer_step(two, channel, WriterCall::Flush);
            &&& no is None && none is None
            &&& out == Some(RecordView { channel, text: s@ + t@, raw: true })
            &&& script::writer_step(three, channel, WriterCall::Flush).1 is None
        }),
{
    reveal_strlit("byte");
    reveal_strlit("block");
    assert("byte"@.len() != "block"@.len());
    text::byte_len_concat(s@, t@);
    assert(b.buf + s@ =~= s@);
    assert(b.buf =~= Seq::empty());
    text::byte_len_concat(b.buf, s@);
    assert(plain(s@ + t@)) by {
        assert forall|k: int| 0 <= k < (s@ + t@).len() implies !text::control(
            #[trigger] (s@ + t@)[k],
        ) by {
            if k < s@.len() {
                assert((s@ + t@)[k] == s@[k]);
            } else {
                assert((s@ + t@)[k] == t@[k - s@.len()]);
            }
        }
    }
    plain_is_writable(s@ + t@);
}

/// Any other name of a mode stands for line mode. A delimiter is taken where one is
/// given that is not empty, and what the buffer holds stays.
pub proof fn modes_go_by_their_names(b: BufferView, channel: Channel, name: String, d: Option<String>)
    ensures
        ({
            let (after, out) = script::writer_step(b, channel, WriterCall::Mode(name, d));
            &&& out is None
            &&& after.buf == b.buf
            &&& (after.mode == Mode::Byte <==> name@ == "byte"@)
            &&& (after.mode == Mode::Block <==> name@ == "block"@)
            &&& d is None ==> after.delimiter == b.delimiter
            &&& d matches Some(x) ==> after.delimiter == if x@.len() > 0 {
                x@
            } else {
                b.delimiter
            }
        }),
{
    reveal_strlit("byte");
    reveal_strlit("block");
    assert("byte"@.len() != "block"@.len());
}

/// When a command ends, what its buffers still hold comes out: the log's first, then
/// the errors', and nothing for a buffer that is empty.
pub proof fn the_rest_comes_out_at_the_end(w: WritersView)
    requires
        plain(w.log.buf),
        plain(w.err.buf),
    ensures
        ({
            let log = RecordView { channel: Channel::Log, text: w.log.buf, raw: true };
            let err = RecordView { channel: Channel::Error, text: w.err.buf, raw: true };
            &&& w.log.buf.len() > 0 && w.err.buf.len() > 0 ==> script::tails(w) == seq![log, err]
            &&& w.log.buf.len() > 0 && w.err.buf.len() == 0 ==> script::tails(w) == seq![log]
            &&& w.log.buf.len() == 0 && w.err.buf.len() > 0 ==> script::tails(w) == seq![err]
            &&& w.log.buf.len() == 0 && w.err.buf.len() == 0 ==> script::tails(w).len() == 0
        }),
{
    plain_is_writable(w.log.buf);
    plain_is_writable(w.err.buf);
}

} // verus!
