//! What the shell's own commands give, by the names under which they are found.

use crate::ask;
use crate::ask::{QueryView, ReplySeq, ReplyView, StopView, Ticket};
use crate::builtins;
use crate::builtins::collect;
use crate::builtins::Builtin;
use crate::laws::evaluation;
use crate::registry;
use crate::registry::{Command, DataView, VarOrigin, VisibleView};
use crate::signature::BoundCallView;
use crate::text;
use crate::value;
use crate::value::ValueView;
use vstd::prelude::*;

verus! {

pub type Given = Result<DataView, StopView>;

/// What the command of a name gives, where it looks at its whole input at once.
pub open spec fn gives(
    name: Seq<char>,
    call: BoundCallView,
    input: DataView,
    width: u16,
    step: u64,
    replies: ReplySeq,
) -> Given {
    let entries = builtins::builtin_entries();
    match registry::named(entries, name) {
        Some(k) => match entries[k].command {
            Command::Builtin(which) => collect::ran(which, call, input, width, step, replies),
            Command::External(_) => Ok(DataView::Empty),
        },
        None => Ok(DataView::Empty),
    }
}

pub(crate) proof fn found(
    which: Builtin,
    call: BoundCallView,
    input: DataView,
    width: u16,
    step: u64,
    replies: ReplySeq,
)
    ensures
        gives(builtins::name_of(which), call, input, width, step, replies) == collect::ran(
            which,
            call,
            input,
            width,
            step,
            replies,
        ),
{
    builtins::every_builtin_is_found(which);
}

pub open spec fn list(items: Seq<ValueView>) -> DataView {
    DataView::Value(ValueView::List(items))
}

/// The lesser of two numbers.
pub open spec fn lesser(a: int, b: int) -> int {
    if a <= b {
        a
    } else {
        b
    }
}

/// `tail n` gives the end of a list: as many items as were asked for, or all there
/// are, and they are the last ones in their order. Without a number it gives the
/// last item, or null; a negative number is refused.
pub proof fn tail_gives_the_end(
    call: BoundCallView,
    items: Seq<ValueView>,
    n: i64,
    width: u16,
    step: u64,
    replies: ReplySeq,
)
    requires
        items.len() <= usize::MAX,
    ensures
        call.positionals == seq![ValueView::Int(n)] && n >= 0 ==> (gives(
            "tail"@,
            call,
            list(items),
            width,
            step,
            replies,
        ) matches Ok(DataView::Value(ValueView::List(out))) && {
            let front = items.len() - out.len();
            &&& out.len() == lesser(n as int, items.len() as int)
            &&& forall|i: int| 0 <= i < out.len() ==> #[trigger] out[i] == items[front + i]
            &&& items.subrange(0, front) + out == items
            &&& out.len() > 0 ==> out.last() == items.last()
        }),
        call.positionals == seq![ValueView::Int(n)] && n < 0 ==> gives(
            "tail"@,
            call,
            list(items),
            width,
            step,
            replies,
        ) is Err,
        call.positionals.len() == 0 ==> gives("tail"@, call, list(items), width, step, replies)
            == Ok::<DataView, StopView>(
            DataView::Value(
                if items.len() == 0 {
                    ValueView::Null
                } else {
                    items[items.len() - 1]
                },
            ),
        ),
{
    found(Builtin::Tail, call, list(items), width, step, replies);
    reveal(collect::ran);
    if call.positionals == seq![ValueView::Int(n)] && n >= 0 {
        assert(call.positionals[0] == ValueView::Int(n));
        let out = gives("tail"@, call, list(items), width, step, replies)->Ok_0->Value_0->List_0;
        let front = items.len() - out.len();
        assert(items.subrange(0, front) + out =~= items);
    }
    if call.positionals == seq![ValueView::Int(n)] && n < 0 {
        assert(call.positionals[0] == ValueView::Int(n));
    }
}

/// `length` counts the items of a list and the characters of a text.
pub proof fn length_counts(
    call: BoundCallView,
    items: Seq<ValueView>,
    s: Seq<char>,
    width: u16,
    step: u64,
    replies: ReplySeq,
)
    requires
        items.len() <= i64::MAX,
        s.len() <= i64::MAX,
    ensures
        gives("length"@, call, list(items), width, step, replies) matches Ok(
            DataView::Value(ValueView::Int(n)),
        ) && n == items.len(),
        gives("length"@, call, DataView::Value(ValueView::Str(s)), width, step, replies) matches Ok(
            DataView::Value(ValueView::Int(n)),
        ) && n == s.len(),
{
    found(Builtin::Length, call, list(items), width, step, replies);
    found(Builtin::Length, call, DataView::Value(ValueView::Str(s)), width, step, replies);
    reveal(collect::ran);
}

/// Is a value the field of a record, or null where the record has none of the name?
pub open spec fn is_field(
    v: ValueView,
    fields: Seq<(Seq<char>, ValueView)>,
    name: Seq<char>,
) -> bool {
    ||| exists|i: int| 0 <= i < fields.len() && fields[i] == (name, v)
    ||| v is Null && forall|i: int| 0 <= i < fields.len() ==> (#[trigger] fields[i]).0 != name
}

proof fn lookup_is_a_field(fields: Seq<(Seq<char>, ValueView)>, name: Seq<char>)
    ensures
        match value::lookup(fields, name) {
            Some(v) => exists|i: int| 0 <= i < fields.len() && fields[i] == (name, v),
            None => forall|i: int| 0 <= i < fields.len() ==> (#[trigger] fields[i]).0 != name,
        },
{
    value::position_is_first(fields, name);
    if let Some(i) = value::position(fields, name) {
        assert(fields[i] == (name, fields[i].1));
    }
}

/// `get` gives a field of a record under its name, and fails where there is none.
pub proof fn get_gives_the_field(
    call: BoundCallView,
    fields: Seq<(Seq<char>, ValueView)>,
    name: Seq<char>,
    width: u16,
    step: u64,
    replies: ReplySeq,
)
    requires
        call.positionals == seq![ValueView::Str(name)],
    ensures
        ({
            let r = gives(
                "get"@,
                call,
                DataView::Value(ValueView::Record(fields)),
                width,
                step,
                replies,
            );
            &&& r matches Ok(d) ==> (d matches DataView::Value(v) && exists|i: int|
                0 <= i < fields.len() && fields[i] == (name, v))
            &&& r is Err <==> forall|i: int|
                0 <= i < fields.len() ==> (#[trigger] fields[i]).0 != name
        }),
{
    let input = DataView::Value(ValueView::Record(fields));
    found(Builtin::Get, call, input, width, step, replies);
    reveal(collect::ran);
    assert(call.positionals[0] == ValueView::Str(name));
    lookup_is_a_field(fields, name);
}

/// `get` on a table gives one value for each row, in the order of the rows: the
/// row's field, or null.
pub proof fn get_gives_the_column(
    call: BoundCallView,
    rows: Seq<ValueView>,
    name: Seq<char>,
    width: u16,
    step: u64,
    replies: ReplySeq,
)
    requires
        call.positionals == seq![ValueView::Str(name)],
    ensures
        ({
            let r = gives("get"@, call, list(rows), width, step, replies);
            &&& r is Ok <==> forall|i: int| 0 <= i < rows.len() ==> #[trigger] rows[i] is Record
            &&& r matches Ok(d) ==> {
                &&& d matches DataView::Value(ValueView::List(out))
                &&& out.len() == rows.len()
                &&& forall|i: int|
                    0 <= i < rows.len() ==> is_field(
                        #[trigger] out[i],
                        rows[i]->Record_0,
                        name,
                    )
            }
        }),
{
    found(Builtin::Get, call, list(rows), width, step, replies);
    reveal(collect::ran);
    assert(call.positionals[0] == ValueView::Str(name));
    columns(rows, name);
}

proof fn columns(rows: Seq<ValueView>, name: Seq<char>)
    ensures
        collect::column_of(rows, name) is Ok <==> forall|i: int|
            0 <= i < rows.len() ==> #[trigger] rows[i] is Record,
        collect::column_of(rows, name) matches Ok(out) ==> out.len() == rows.len() && forall|i: int|
            0 <= i < rows.len() ==> is_field(#[trigger] out[i], rows[i]->Record_0, name),
    decreases rows.len(),
{
    if rows.len() > 0 {
        let init = rows.drop_last();
        columns(init, name);
        let n = rows.len() - 1;
        assert(rows[n] == rows.last());
        assert forall|i: int| 0 <= i < init.len() implies #[trigger] init[i] == rows[i] by {}
        if collect::column_of(rows, name) is Ok {
            assert forall|i: int| 0 <= i < rows.len() implies #[trigger] rows[i] is Record by {
                if i < n {
                    assert(init[i] is Record);
                }
            }
            let out = collect::column_of(rows, name)->Ok_0;
            lookup_is_a_field(rows[n]->Record_0, name);
            assert forall|i: int| 0 <= i < rows.len() implies is_field(
                #[trigger] out[i],
                rows[i]->Record_0,
                name,
            ) by {
                if i < n {
                    assert(out[i] == collect::column_of(init, name)->Ok_0[i]);
                    assert(init[i] == rows[i]);
                }
            }
        } else if collect::column_of(init, name) is Err {
            let bad = choose|i: int| 0 <= i < init.len() && !(#[trigger] init[i] is Record);
            assert(!(rows[bad] is Record));
        }
    }
}

/// `str upcase` and `str downcase` change the case of a text, or of every text of
/// a list, one for one.
pub proof fn recasing_goes_text_by_text(
    call: BoundCallView,
    texts: Seq<Seq<char>>,
    s: Seq<char>,
    width: u16,
    step: u64,
    replies: ReplySeq,
)
    requires
        call.positionals.len() == 0,
    ensures
        gives("str upcase"@, call, DataView::Value(ValueView::Str(s)), width, step, replies)
            == Ok::<DataView, StopView>(DataView::Value(ValueView::Str(text::uppercased(s)))),
        gives("str downcase"@, call, DataView::Value(ValueView::Str(s)), width, step, replies)
            == Ok::<DataView, StopView>(DataView::Value(ValueView::Str(text::lowercased(s)))),
        gives(
            "str upcase"@,
            call,
            list(texts.map_values(|t: Seq<char>| ValueView::Str(t))),
            width,
            step,
            replies,
        ) == Ok::<DataView, StopView>(
            list(texts.map_values(|t: Seq<char>| ValueView::Str(text::uppercased(t)))),
        ),
        gives(
            "str downcase"@,
            call,
            list(texts.map_values(|t: Seq<char>| ValueView::Str(t))),
            width,
            step,
            replies,
        ) == Ok::<DataView, StopView>(
            list(texts.map_values(|t: Seq<char>| ValueView::Str(text::lowercased(t)))),
        ),
{
    let one = DataView::Value(ValueView::Str(s));
    let many = list(texts.map_values(|t: Seq<char>| ValueView::Str(t)));
    found(Builtin::StrUpcase, call, one, width, step, replies);
    found(Builtin::StrDowncase, call, one, width, step, replies);
    found(Builtin::StrUpcase, call, many, width, step, replies);
    found(Builtin::StrDowncase, call, many, width, step, replies);
    reveal(collect::ran);
    recased_texts("str upcase"@, texts, true);
    recased_texts("str downcase"@, texts, false);
}

proof fn recased_texts(cmd: Seq<char>, texts: Seq<Seq<char>>, up: bool)
    ensures
        collect::recased_items(cmd, texts.map_values(|t: Seq<char>| ValueView::Str(t)), up) == Ok::<
            Seq<ValueView>,
            crate::error::ErrorView,
        >(
            if up {
                texts.map_values(|t: Seq<char>| ValueView::Str(text::uppercased(t)))
            } else {
                texts.map_values(|t: Seq<char>| ValueView::Str(text::lowercased(t)))
            },
        ),
    decreases texts.len(),
{
    let items = texts.map_values(|t: Seq<char>| ValueView::Str(t));
    let out = if up {
        texts.map_values(|t: Seq<char>| ValueView::Str(text::uppercased(t)))
    } else {
        texts.map_values(|t: Seq<char>| ValueView::Str(text::lowercased(t)))
    };
    if texts.len() == 0 {
        assert(out =~= Seq::empty());
    } else {
        let init = texts.drop_last();
        recased_texts(cmd, init, up);
        assert(items.drop_last() =~= init.map_values(|t: Seq<char>| ValueView::Str(t)));
        assert(items.last() == ValueView::Str(texts.last()));
        let before = if up {
            init.map_values(|t: Seq<char>| ValueView::Str(text::uppercased(t)))
        } else {
            init.map_values(|t: Seq<char>| ValueView::Str(text::lowercased(t)))
        };
        assert(before.push(out.last()) =~= out);
    }
}

/// `echo` gives its arguments: nothing, the one, or the list of them.
pub proof fn echo_gives_its_arguments(
    call: BoundCallView,
    input: DataView,
    width: u16,
    step: u64,
    replies: ReplySeq,
)
    ensures
        gives("echo"@, call, input, width, step, replies) == Ok::<DataView, StopView>(
            if call.positionals.len() == 0 {
                DataView::Empty
            } else if call.positionals.len() == 1 {
                DataView::Value(call.positionals[0])
            } else {
                list(call.positionals)
            },
        ),
{
    found(Builtin::Echo, call, input, width, step, replies);
    reveal(collect::ran);
}

/// `to json` gives the text that the host writes for the value, and `from json`
/// the value that the host reads from the text: where the host reads back what it
/// wrote, the two undo each other.
pub proof fn json_goes_there_and_back(
    call: BoundCallView,
    v: ValueView,
    s: Seq<char>,
    width: u16,
    step: u64,
    replies: ReplySeq,
)
    requires
        call.flags.len() == 0,
        !holds_non_finite(v),
        ask::reply_to(replies, QueryView::WriteJson(v, false)) == Some(ReplyView::Text(s)),
        ask::reply_to(replies, QueryView::ReadJson(s)) == Some(ReplyView::Value(v)),
    ensures
        gives("to json"@, call, DataView::Value(v), width, step, replies) == Ok::<
            DataView,
            StopView,
        >(DataView::Value(ValueView::Str(s))),
        gives("from json"@, call, DataView::Value(ValueView::Str(s)), width, step, replies)
            == Ok::<DataView, StopView>(DataView::Value(v)),
{
    found(Builtin::ToJson, call, DataView::Value(v), width, step, replies);
    found(Builtin::FromJson, call, DataView::Value(ValueView::Str(s)), width, step, replies);
    reveal(collect::ran);
    value::position_is_first(call.flags, "pretty"@);
    non_finite_is_found(v);
}

/// Is there a float inside that is infinite or not a number?
pub open spec fn holds_non_finite(v: ValueView) -> bool
    decreases v,
{
    match v {
        ValueView::Float(f) => f.spec_magnitude() >= crate::float::INFINITE,
        ValueView::List(items) => exists|i: int|
            0 <= i < items.len() && holds_non_finite(#[trigger] items[i]),
        ValueView::Record(fields) => exists|i: int|
            0 <= i < fields.len() && holds_non_finite((#[trigger] fields[i]).1),
        _ => false,
    }
}

proof fn non_finite_is_found(v: ValueView)
    ensures
        value::non_finite_inside(v) == holds_non_finite(v),
    decreases v,
{
    match v {
        ValueView::List(items) => {
            assert forall|i: int| 0 <= i < items.len() implies value::non_finite_inside(
                #[trigger] items[i],
            ) == holds_non_finite(items[i]) by {
                non_finite_is_found(items[i]);
            }
        },
        ValueView::Record(fields) => {
            assert forall|i: int| 0 <= i < fields.len() implies value::non_finite_inside(
                (#[trigger] fields[i]).1,
            ) == holds_non_finite(fields[i].1) by {
                non_finite_is_found(fields[i].1);
            }
        },
        _ => {},
    }
}

/// `to json` refuses a value that holds a number which JSON has no form for, and
/// asks for pretty text only where that was asked of it.
pub proof fn json_refuses_what_it_cannot_write(
    call: BoundCallView,
    v: ValueView,
    s: Seq<char>,
    width: u16,
    step: u64,
    replies: ReplySeq,
)
    requires
        value::names_distinct(call.flags),
    ensures
        holds_non_finite(v) ==> gives("to json"@, call, DataView::Value(v), width, step, replies)
            matches Err(StopView::Fail(_)),
        gives("to json"@, call, DataView::Value(v), width, step, replies) == Ok::<
            DataView,
            StopView,
        >(DataView::Value(ValueView::Str(s))) ==> ask::reply_to(
            replies,
            QueryView::WriteJson(
                v,
                exists|i: int|
                    0 <= i < call.flags.len() && call.flags[i] == (
                        "pretty"@,
                        ValueView::Bool(true),
                    ),
            ),
        ) == Some(ReplyView::Text(s)),
{
    found(Builtin::ToJson, call, DataView::Value(v), width, step, replies);
    reveal(collect::ran);
    non_finite_is_found(v);
    lookup_is_a_field(call.flags, "pretty"@);
    let asked = exists|i: int|
        0 <= i < call.flags.len() && call.flags[i] == ("pretty"@, ValueView::Bool(true));
    value::position_is_first(call.flags, "pretty"@);
    if asked {
        let i = choose|i: int|
            0 <= i < call.flags.len() && call.flags[i] == ("pretty"@, ValueView::Bool(true));
        let p = value::position(call.flags, "pretty"@)->0;
        if p != i {
            assert(call.flags[p].0 == call.flags[i].0);
        }
    }
    assert(asked == collect::pretty_asked(call));
}

/// `history` gives the lines of the pane's history, in their order.
pub proof fn history_gives_the_lines(
    call: BoundCallView,
    input: DataView,
    lines: Seq<Seq<char>>,
    width: u16,
    step: u64,
    replies: ReplySeq,
)
    requires
        ask::reply_to(replies, QueryView::History) == Some(ReplyView::Texts(lines)),
    ensures
        gives("history"@, call, input, width, step, replies) matches Ok(
            DataView::Value(ValueView::List(out)),
        ) && out.len() == lines.len() && forall|i: int|
            0 <= i < lines.len() ==> #[trigger] out[i] == ValueView::Str(lines[i]),
{
    found(Builtin::History, call, input, width, step, replies);
    reveal(collect::ran);
}

/// A row of the list of variables says what a variable is called, where it comes from
/// and what it is.
pub open spec fn tells_of(row: ValueView, v: VisibleView) -> bool {
    row matches ValueView::Record(fields) && fields.len() == 3 && fields[0] == (
        "name"@,
        ValueView::Str(v.name),
    ) && fields[1].0 == "scope"@ && fields[2] == ("value"@, v.value) && fields[1].1
        == ValueView::Str(
        match v.origin {
            VarOrigin::Host => "host"@,
            VarOrigin::Session => "session"@,
        },
    )
}

proof fn row_tells_of(v: VisibleView)
    ensures
        tells_of(collect::var_row(v), v),
{
    reveal_strlit("name");
    reveal_strlit("scope");
    reveal_strlit("value");
    assert("name"@.len() != "scope"@.len() && "name"@.len() != "value"@.len());
    assert("scope"@[0] != "value"@[0]);
    let none = Seq::<(Seq<char>, ValueView)>::empty();
    let one = value::inserted(none, "name"@, ValueView::Str(v.name));
    let two = value::inserted(one, "scope"@, ValueView::Str(collect::origin_text(v.origin)));
    value::position_is_first(none, "name"@);
    value::position_is_first(one, "scope"@);
    value::position_is_first(two, "value"@);
}

/// `vars` gives a row for each variable that the shell sees, and no others, in the order
/// of their names.
pub proof fn vars_gives_the_variables(
    call: BoundCallView,
    input: DataView,
    vars: Seq<VisibleView>,
    width: u16,
    step: u64,
    replies: ReplySeq,
)
    requires
        ask::reply_to(replies, QueryView::Vars(Ticket { step, nth: 0 })) == Some(
            ReplyView::Vars(vars),
        ),
    ensures
        gives("vars"@, call, input, width, step, replies) matches Ok(
            DataView::Value(ValueView::List(rows)),
        ) && exists|sorted: Seq<VisibleView>|
            {
                &&& #[trigger] sorted.to_multiset() == vars.to_multiset()
                &&& sorted.len() == rows.len()
                &&& forall|i: int| 0 <= i < rows.len() ==> tells_of(#[trigger] rows[i], sorted[i])
                &&& forall|i: int, j: int|
                    0 <= i < j < sorted.len() ==> !evaluation::comes_before(
                        (#[trigger] sorted[j]).name,
                        (#[trigger] sorted[i]).name,
                    )
            },
{
    found(Builtin::Vars, call, input, width, step, replies);
    reveal(collect::ran);
    collect::listed_variables_are_sorted(vars);
    let sorted = collect::vars_by_name(vars);
    let rows = sorted.map_values(|v: VisibleView| collect::var_row(v));
    assert forall|i: int| 0 <= i < rows.len() implies tells_of(#[trigger] rows[i], sorted[i]) by {
        row_tells_of(sorted[i]);
    }
    assert forall|i: int, j: int| 0 <= i < j < sorted.len() implies !evaluation::comes_before(
        (#[trigger] sorted[j]).name,
        (#[trigger] sorted[i]).name,
    ) by {
        evaluation::texts_are_ordered_by_their_first_difference(sorted[j].name, sorted[i].name);
        evaluation::texts_are_ordered_by_their_first_difference(sorted[i].name, sorted[j].name);
    }
}

} // verus!
