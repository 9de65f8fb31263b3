//! When buffered output goes out, and how host values come in.

use crate::convert;
use crate::convert::HostValue;
use crate::engine;
use crate::outbuf;
use crate::outbuf::{BufferView, Mode};
use crate::text;
use crate::value;
use crate::value::ValueView;
use vstd::prelude::*;

verus! {

/// Does a text end with another?
pub open spec fn ends_with(s: Seq<char>, d: Seq<char>) -> bool {
    d.len() <= s.len() && s.skip(s.len() - d.len()) == d
}

/// What is held and what comes is all that goes out or is held. In byte mode all of
/// it goes out. In block mode all is held until there are 8192 bytes, and then it
/// all goes out, as it does in every mode. In line mode what goes out ends with the
/// delimiter, and what is held has no delimiter in it.
pub proof fn modes_say_when_output_goes_out(b: BufferView, t: Seq<char>)
    ensures
        ({
            let (after, out) = outbuf::written(b, t);
            let sent = outbuf::or_nothing(out);
            let full = text::byte_len(b.buf + t) >= 8192;
            &&& sent + after.buf == b.buf + t
            &&& after.mode == b.mode && after.delimiter == b.delimiter
            &&& full || b.mode == Mode::Byte ==> sent == b.buf + t
            &&& !full && b.mode == Mode::Block ==> after.buf == b.buf + t
            &&& !full && b.mode == Mode::Line && b.delimiter.len() > 0 ==> {
                &&& sent.len() > 0 ==> ends_with(sent, b.delimiter)
                &&& !text::contains(after.buf, b.delimiter)
                &&& text::contains(b.buf + t, b.delimiter) <==> sent.len() > 0
            }
        }),
{
    let all = b.buf + t;
    let d = b.delimiter;
    text::byte_len_concat(b.buf, t);
    let (after, out) = outbuf::written(b, t);
    outbuf::last_match_is(all, d, all.len() as int);
    if all.len() == 0 {
        assert(outbuf::or_nothing(outbuf::some_text(all)) =~= all);
    }
    assert(outbuf::or_nothing(out) + after.buf =~= all);
    if text::byte_len(all) < 8192 && b.mode == Mode::Line && d.len() > 0 {
        match outbuf::last_match(all, d) {
            Some(j) => {
                let end = j + d.len();
                let sent = all.take(end);
                assert(sent.skip(sent.len() - d.len()) =~= all.subrange(j, end));
                assert(text::matches_at(all, j, d));
                if text::contains(after.buf, d) {
                    let k = choose|k: int| #[trigger] text::matches_at(after.buf, k, d);
                    assert(after.buf.subrange(k, k + d.len()) =~= all.subrange(
                        end + k,
                        end + k + d.len(),
                    ));
                    assert(text::matches_at(all, end + k, d));
                }
            },
            None => {
                assert(!text::contains(all, d)) by {
                    if text::contains(all, d) {
                        let k = choose|k: int| #[trigger] text::matches_at(all, k, d);
                        assert(k <= all.len());
                    }
                }
            },
        }
    }
}

/// Every line feed goes out behind a carriage return, one that has it already keeps
/// its own, and every other character goes out as it is.
pub proof fn line_feeds_get_a_return(c: char, rest: Seq<char>)
    ensures
        engine::crlf_from(Seq::empty(), 0) == Seq::<char>::empty(),
        engine::crlf_from(seq!['\n'] + rest, 0) == seq!['\r', '\n'] + engine::crlf_from(rest, 0),
        engine::crlf_from(seq!['\r', '\n'] + rest, 0) == seq!['\r', '\n'] + engine::crlf_from(
            rest,
            0,
        ),
        c != '\n' && (c != '\r' || rest.len() == 0 || rest[0] != '\n') ==> engine::crlf_from(
            seq![c] + rest,
            0,
        ) == seq![c] + engine::crlf_from(rest, 0),
{
    later(seq!['\n'], rest, 0);
    later(seq!['\r', '\n'], rest, 0);
    later(seq![c], rest, 0);
    assert((seq!['\n'] + rest)[0] == '\n');
    assert((seq!['\r', '\n'] + rest)[0] == '\r');
    assert((seq!['\r', '\n'] + rest)[1] == '\n');
    assert((seq![c] + rest)[0] == c);
    if rest.len() > 0 {
        assert((seq![c] + rest)[1] == rest[0]);
    }
}

proof fn later(front: Seq<char>, rest: Seq<char>, i: int)
    requires
        0 <= i <= rest.len() + 1,
    ensures
        engine::crlf_from(front + rest, front.len() + i) == engine::crlf_from(rest, i),
    decreases rest.len() + 1 - i,
{
    let all = front + rest;
    if i < rest.len() {
        assert(all[front.len() + i] == rest[i]);
        if i + 1 < rest.len() {
            assert(all[front.len() + i + 1] == rest[i + 1]);
        }
        later(front, rest, i + 1);
        if i + 2 <= rest.len() + 1 {
            later(front, rest, i + 2);
        }
    }
}

/// A host value comes in as the value it stands for: nothing as null, a whole number
/// that a double holds exactly as an integer and any other number as a float, texts
/// and bytes as they are.
pub proof fn host_scalars_come_in(v: HostValue)
    ensures
        v is Nothing ==> convert::converted(v) == Ok::<ValueView, Seq<char>>(ValueView::Null),
        v matches HostValue::Bool(b) ==> convert::converted(v) == Ok::<ValueView, Seq<char>>(
            ValueView::Bool(b),
        ),
        v matches HostValue::Number(f, whole) ==> convert::converted(v) == Ok::<
            ValueView,
            Seq<char>,
        >(
            match whole {
                Some(n) => if -9_007_199_254_740_992 <= n <= 9_007_199_254_740_992 {
                    ValueView::Int(n)
                } else {
                    ValueView::Float(f)
                },
                None => ValueView::Float(f),
            },
        ),
        v matches HostValue::Text(s) ==> convert::converted(v) == Ok::<ValueView, Seq<char>>(
            ValueView::Str(s@),
        ),
        v matches HostValue::Bytes(b) ==> convert::converted(v) == Ok::<ValueView, Seq<char>>(
            ValueView::Bytes(b@),
        ),
        v is Other ==> convert::converted(v) is Err,
{
}

/// A list comes in item by item, in its order, and fails where an item does.
pub proof fn host_lists_come_in(items: Vec<HostValue>)
    ensures
        match convert::converted(HostValue::List(items)) {
            Ok(v) => v matches ValueView::List(out) && out.len() == items@.len() && forall|i: int|
                0 <= i < items@.len() ==> convert::converted(#[trigger] items@[i]) == Ok::<
                    ValueView,
                    Seq<char>,
                >(out[i]),
            Err(_) => exists|i: int|
                0 <= i < items@.len() && convert::converted(#[trigger] items@[i]) is Err,
        },
{
    items_in(items@, items@.len());
}

proof fn items_in(items: Seq<HostValue>, n: nat)
    requires
        n <= items.len(),
    ensures
        match convert::converted_items(items, n) {
            Ok(out) => out.len() == n && forall|i: int|
                0 <= i < n ==> convert::converted(#[trigger] items[i]) == Ok::<
                    ValueView,
                    Seq<char>,
                >(out[i]),
            Err(_) => exists|i: int|
                0 <= i < n && convert::converted(#[trigger] items[i]) is Err,
        },
    decreases n,
{
    if n > 0 {
        items_in(items, (n - 1) as nat);
        assert(items[n - 1] == items[n - 1]);
    }
}

/// An object comes in as a record with its names, each with the value that comes of
/// its own; of a name that comes twice the later value counts.
pub proof fn host_objects_come_in(entries: Vec<(String, HostValue)>)
    ensures
        convert::converted(HostValue::Object(entries)) matches Ok(v) ==> {
            &&& v matches ValueView::Record(fields)
            &&& value::names_distinct(fields)
            &&& forall|i: int|
                0 <= i < entries@.len() && last_of_its_name(entries@, entries@.len() as int, i)
                    ==> field_came_in(#[trigger] entries@[i], fields)
        },
{
    if let Ok(_) = convert::converted(HostValue::Object(entries)) {
        fields_in(entries@, entries@.len());
    }
}

/// A record has an entry's value under its name.
pub open spec fn field_came_in(
    entry: (String, HostValue),
    fields: Seq<(Seq<char>, ValueView)>,
) -> bool {
    convert::converted(entry.1) matches Ok(x) && value::lookup(fields, entry.0@) == Some(x)
}

/// No later entry has the same name.
pub open spec fn last_of_its_name(entries: Seq<(String, HostValue)>, n: int, i: int) -> bool {
    forall|j: int| i < j < n ==> (#[trigger] entries[j]).0@ != entries[i].0@
}

proof fn fields_in(entries: Seq<(String, HostValue)>, n: nat)
    requires
        n <= entries.len(),
    ensures
        convert::converted_fields(entries, n) matches Ok(fields) ==> {
            &&& value::names_distinct(fields)
            &&& forall|i: int|
                0 <= i < n && last_of_its_name(entries, n as int, i) ==> field_came_in(
                    #[trigger] entries[i],
                    fields,
                )
        },
    decreases n,
{
    if n > 0 {
        let m = (n - 1) as nat;
        fields_in(entries, m);
        if let Ok(fields) = convert::converted_fields(entries, n) {
            let before = convert::converted_fields(entries, m)->Ok_0;
            let key = entries[m as int].0@;
            let x = convert::converted(entries[m as int].1)->Ok_0;
            assert(key.push('_').len() != key.len());
            value::fields_behave_as_a_map(before, key, x, key.push('_'));
            assert forall|i: int|
                0 <= i < n && last_of_its_name(entries, n as int, i) implies field_came_in(
                #[trigger] entries[i],
                fields,
            ) by {
                if i < m {
                    assert(entries[m as int].0@ != entries[i].0@);
                    assert(last_of_its_name(entries, m as int, i));
                    value::fields_behave_as_a_map(before, key, x, entries[i].0@);
                }
            }
        }
    }
}

} // verus!
