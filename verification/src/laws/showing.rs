//! How values and errors show on the terminal.

use crate::ask::{ReplySeq, StopView};
use crate::error;
use crate::error::{ErrorView, Span};
use crate::expr;
use crate::expr::{ScopeSeq, Style};
use crate::laws::display;
use crate::laws::tables;
use crate::lex::InterpPartView;
use crate::render;
use crate::render::table;
use crate::text;
use crate::value;
use crate::value::ValueView;
use crate::width;
use vstd::prelude::*;

verus! {

/// A value on its own, with its colors out, shows as null, `true` or `false`, its
/// decimal digits, or its text without escapes, and a line break.
pub proof fn scalars_show_as_they_are(
    b: bool,
    n: i64,
    s: Seq<char>,
    width: u16,
    replies: ReplySeq,
)
    ensures
        render::rendered(ValueView::Null, width, replies) matches Ok(t) && render::stripped(t, true)
            == "null\n"@,
        render::rendered(ValueView::Bool(b), width, replies) matches Ok(t) && render::stripped(
            t,
            true,
        ) == if b {
            "true\n"@
        } else {
            "false\n"@
        },
        render::rendered(ValueView::Int(n), width, replies) matches Ok(t) && render::stripped(
            t,
            true,
        ) == text::decimal_text(n as int) + "\n"@,
        render::rendered(ValueView::Str(s), width, replies) matches Ok(t) && t == render::stripped(
            s,
            true,
        ) + "\n"@,
{
    literals();
    let end = seq!['\n'];
    between_codes(seq!['2'], "null"@, end);
    between_codes(
        seq!['3', '3'],
        if b {
            "true"@
        } else {
            "false"@
        },
        end,
    );
    digits_are_plain(n as int);
    between_codes(seq!['3', '6'], text::decimal_text(n as int), end);
    display::single_controls_go('\n', Seq::empty());
    assert(end + Seq::<char>::empty() =~= end);
    assert(render::stripped(Seq::empty(), true) =~= Seq::<char>::empty());
    assert(render::stripped(end, true) =~= end);
    let reset = seq!['\x1b', '['] + seq!['0'] + seq!['m'];
    let two = seq!['\x1b', '['] + seq!['2'] + seq!['m'];
    let t0 = render::rendered(ValueView::Null, width, replies)->Ok_0;
    assert(t0 =~= two + "null"@ + reset + end);
    assert("null\n"@ =~= "null"@ + end);
    assert("true\n"@ =~= "true"@ + end);
    assert("false\n"@ =~= "false"@ + end);
}

proof fn literals()
    ensures
        "\n"@ == seq!['\n'],
        "null"@ == seq!['n', 'u', 'l', 'l'],
        "true"@ == seq!['t', 'r', 'u', 'e'],
        "false"@ == seq!['f', 'a', 'l', 's', 'e'],
        "null\n"@ == seq!['n', 'u', 'l', 'l', '\n'],
        "true\n"@ == seq!['t', 'r', 'u', 'e', '\n'],
        "false\n"@ == seq!['f', 'a', 'l', 's', 'e', '\n'],
        "\x1b[0m"@ == seq!['\x1b', '['] + seq!['0'] + seq!['m'],
        "\x1b[33m"@ == seq!['\x1b', '['] + seq!['3', '3'] + seq!['m'],
        "\x1b[36m"@ == seq!['\x1b', '['] + seq!['3', '6'] + seq!['m'],
        "\x1b[32m"@ == seq!['\x1b', '['] + seq!['3', '2'] + seq!['m'],
        "\x1b[2m"@ == seq!['\x1b', '['] + seq!['2'] + seq!['m'],
        "\x1b[2mnull\x1b[0m"@ == seq!['\x1b', '['] + seq!['2'] + seq!['m'] + seq![
            'n',
            'u',
            'l',
            'l',
        ] + (seq!['\x1b', '['] + seq!['0'] + seq!['m']),
        "\x1b[0m  "@ == seq!['\x1b', '['] + seq!['0'] + seq!['m'] + seq![' ', ' '],
        "  "@ == seq![' ', ' '],
{
    reveal_strlit("\n");
    reveal_strlit("null");
    reveal_strlit("true");
    reveal_strlit("false");
    reveal_strlit("null\n");
    reveal_strlit("true\n");
    reveal_strlit("false\n");
    reveal_strlit("\x1b[0m");
    reveal_strlit("\x1b[33m");
    reveal_strlit("\x1b[36m");
    reveal_strlit("\x1b[32m");
    reveal_strlit("\x1b[2m");
    reveal_strlit("\x1b[2mnull\x1b[0m");
    reveal_strlit("\x1b[0m  ");
    reveal_strlit("  ");
    assert("\n"@ =~= seq!['\n']);
    assert("null"@ =~= seq!['n', 'u', 'l', 'l']);
    assert("true"@ =~= seq!['t', 'r', 'u', 'e']);
    assert("false"@ =~= seq!['f', 'a', 'l', 's', 'e']);
    assert("null\n"@ =~= seq!['n', 'u', 'l', 'l', '\n']);
    assert("true\n"@ =~= seq!['t', 'r', 'u', 'e', '\n']);
    assert("false\n"@ =~= seq!['f', 'a', 'l', 's', 'e', '\n']);
    assert("\x1b[0m"@ =~= seq!['\x1b', '['] + seq!['0'] + seq!['m']);
    assert("\x1b[33m"@ =~= seq!['\x1b', '['] + seq!['3', '3'] + seq!['m']);
    assert("\x1b[36m"@ =~= seq!['\x1b', '['] + seq!['3', '6'] + seq!['m']);
    assert("\x1b[32m"@ =~= seq!['\x1b', '['] + seq!['3', '2'] + seq!['m']);
    assert("\x1b[2m"@ =~= seq!['\x1b', '['] + seq!['2'] + seq!['m']);
    assert("\x1b[2mnull\x1b[0m"@ =~= seq!['\x1b', '['] + seq!['2'] + seq!['m'] + seq![
        'n',
        'u',
        'l',
        'l',
    ] + (seq!['\x1b', '['] + seq!['0'] + seq!['m']));
    assert("\x1b[0m  "@ =~= seq!['\x1b', '['] + seq!['0'] + seq!['m'] + seq![' ', ' ']);
    assert("  "@ =~= seq![' ', ' ']);
}

proof fn digits_are_plain(n: int)
    ensures
        tables::plain(text::decimal_text(n)),
{
    let m = if n < 0 {
        (-n) as nat
    } else {
        n as nat
    };
    text::numeral_denotes(m);
    let t = text::numeral(m);
    assert forall|k: int| 0 <= k < text::decimal_text(n).len() implies !text::control(
        #[trigger] text::decimal_text(n)[k],
    ) by {
        if n < 0 {
            if k > 0 {
                assert(text::decimal_text(n)[k] == t[k - 1]);
                assert(text::digit(t[k - 1]));
            }
        } else {
            assert(text::digit(t[k]));
        }
    }
}

/// A plain text between a color code and a reset shows as it is.
proof fn between_codes(code: Seq<char>, t: Seq<char>, rest: Seq<char>)
    requires
        tables::plain(t),
        forall|k: int| 0 <= k < code.len() ==> !('\x40' <= #[trigger] code[k] <= '\x7e'),
    ensures
        render::stripped(
            seq!['\x1b', '['] + code + seq!['m'] + t + (seq!['\x1b', '['] + seq!['0'] + seq!['m'])
                + rest,
            true,
        ) == t + render::stripped(rest, true),
{
    let start = seq!['\x1b', '['] + code + seq!['m'];
    let reset = seq!['\x1b', '['] + seq!['0'] + seq!['m'];
    display::control_sequences_do_not_show(seq!['0'], 'm', rest, true);
    display::plain_text_shows(t, reset + rest, true);
    display::control_sequences_do_not_show(code, 'm', t + (reset + rest), true);
    assert(start + t + reset + rest =~= start + (t + (reset + rest)));
}

/// One line of a list: the number of the item, set to the right of its column, two
/// spaces, and the item.
pub open spec fn numbered(
    line: Seq<char>,
    i: int,
    wide: nat,
    item: ValueView,
    replies: ReplySeq,
) -> bool {
    &&& render::colored(item, replies) matches Ok(shown)
    &&& exists|pad: Seq<char>|
        {
            &&& #[trigger] tables::frame(pad)
            &&& forall|k: int| 0 <= k < pad.len() ==> pad[k] == ' '
            &&& pad.len() + text::numeral(i as nat).len() == wide
            &&& line == "\x1b[2m"@ + pad + text::numeral(i as nat) + "\x1b[0m  "@ + shown + "\n"@
        }
}

/// A list shows one item to a line, in its order, each with its number; the numbers
/// are as wide as that of the last.
pub proof fn lists_show_their_items(items: Seq<ValueView>, replies: ReplySeq)
    requires
        items.len() > 0,
    ensures
        render::list_text(items, replies) matches Ok(t) ==> exists|lines: Seq<Seq<char>>|
            {
                &&& t == #[trigger] one_after_another(lines, 0)
                &&& lines.len() == items.len()
                &&& forall|i: int|
                    0 <= i < items.len() ==> numbered(
                        #[trigger] lines[i],
                        i,
                        text::numeral((items.len() - 1) as nat).len(),
                        items[i],
                        replies,
                    )
            },
{
    if let Ok(t) = render::list_text(items, replies) {
        let wide = text::numeral((items.len() - 1) as nat).len();
        let lines = lines_in(items, 0, wide, replies);
        assert(wide == text::numeral((items.len() - 1) as nat).len());
        assert(t == one_after_another(lines, 0));
    }
}

/// Lines with their line breaks, one behind the other.
pub open spec fn one_after_another(lines: Seq<Seq<char>>, i: int) -> Seq<char>
    decreases lines.len() - i,
{
    if !(0 <= i < lines.len()) {
        Seq::empty()
    } else {
        lines[i] + one_after_another(lines, i + 1)
    }
}

proof fn lines_in(items: Seq<ValueView>, i: int, wide: nat, replies: ReplySeq) -> (lines: Seq<
    Seq<char>,
>)
    requires
        0 <= i <= items.len(),
        render::list_lines(items, i, wide, replies) is Ok,
        items.len() > 0,
        wide == text::numeral((items.len() - 1) as nat).len(),
    ensures
        lines.len() == items.len(),
        render::list_lines(items, i, wide, replies) == Ok::<Seq<char>, StopView>(
            one_after_another(lines, i),
        ),
        forall|k: int|
            i <= k < items.len() ==> numbered(#[trigger] lines[k], k, wide, items[k], replies),
    decreases items.len() - i,
{
    if i == items.len() {
        Seq::new(items.len(), |k: int| Seq::<char>::empty())
    } else {
        let rest = lines_in(items, i + 1, wide, replies);
        let t = render::colored(items[i], replies)->Ok_0;
        let line = "\x1b[2m"@ + render::right_aligned(text::numeral(i as nat), wide) + "\x1b[0m  "@
            + t + "\n"@;
        let lines = rest.update(i, line);
        same_tail(lines, rest, i + 1);
        longer_numbers(i as nat, (items.len() - 1) as nat);
        let pad = text::repeated(' ', (wide - text::numeral(i as nat).len()) as nat);
        assert(tables::frame(pad));
        assert(render::right_aligned(text::numeral(i as nat), wide) =~= pad + text::numeral(
            i as nat,
        ));
        assert(line =~= "\x1b[2m"@ + pad + text::numeral(i as nat) + "\x1b[0m  "@ + t + "\n"@);
        assert(numbered(line, i, wide, items[i], replies));
        assert forall|k: int| i <= k < items.len() implies numbered(
            #[trigger] lines[k],
            k,
            wide,
            items[k],
            replies,
        ) by {
            if k > i {
                assert(lines[k] == rest[k]);
            }
        }
        lines
    }
}

proof fn same_tail(a: Seq<Seq<char>>, b: Seq<Seq<char>>, i: int)
    requires
        a.len() == b.len(),
        0 <= i,
        forall|k: int| i <= k < a.len() ==> a[k] == b[k],
    ensures
        one_after_another(a, i) == one_after_another(b, i),
    decreases a.len() - i,
{
    if i < a.len() {
        same_tail(a, b, i + 1);
    }
}

proof fn longer_numbers(a: nat, b: nat)
    requires
        a <= b,
    ensures
        text::numeral(a).len() <= text::numeral(b).len(),
    decreases b,
{
    if b >= 10 {
        if a >= 10 {
            longer_numbers(a / 10, b / 10);
        }
    }
}

/// A record shows one field to a line, in its order: the name, filled up to the
/// widest of the names and two spaces more, and the value.
pub proof fn records_show_their_fields(fields: Seq<(Seq<char>, ValueView)>, replies: ReplySeq)
    requires
        fields.len() > 0,
    ensures
        render::record_text(fields, replies) matches Ok(t) ==> exists|
            lines: Seq<Seq<char>>,
            w: usize,
        |
            {
                &&& #[trigger] name_column(fields, w)
                &&& t == #[trigger] one_after_another(lines, 0)
                &&& lines.len() == fields.len()
                &&& forall|i: int|
                    0 <= i < fields.len() ==> field_line(#[trigger] lines[i], fields[i], w, replies)
            },
{
    if let Ok(t) = render::record_text(fields, replies) {
        let w = render::name_width(fields, fields.len());
        widest_name(fields, fields.len());
        let lines = fields_shown(fields, 0, w, replies);
        assert(name_column(fields, w));
        assert(t == one_after_another(lines, 0));
    }
}

/// As wide as the widest name shows, and no wider.
pub open spec fn name_column(fields: Seq<(Seq<char>, ValueView)>, w: usize) -> bool {
    &&& forall|i: int|
        0 <= i < fields.len() ==> width::text_columns(
            render::stripped((#[trigger] fields[i]).0, false),
        ) <= w
    &&& exists|i: int|
        0 <= i < fields.len() && width::text_columns(
            render::stripped((#[trigger] fields[i]).0, false),
        ) == w
}

/// The line of a field: its name, spaces up to the width and two more, its value.
pub open spec fn field_line(
    line: Seq<char>,
    field: (Seq<char>, ValueView),
    w: usize,
    replies: ReplySeq,
) -> bool {
    let name = render::stripped(field.0, false);
    &&& render::colored(field.1, replies) matches Ok(shown)
    &&& exists|pad: Seq<char>|
        {
            &&& #[trigger] tables::frame(pad)
            &&& forall|k: int| 0 <= k < pad.len() ==> pad[k] == ' '
            &&& pad.len() + width::text_columns(name) == w
            &&& line == "\x1b[32m"@ + name + "\x1b[0m"@ + pad + "  "@ + shown + "\n"@
        }
}

proof fn widest_name(fields: Seq<(Seq<char>, ValueView)>, n: nat)
    requires
        0 < n <= fields.len(),
    ensures
        forall|i: int|
            0 <= i < n ==> width::text_columns(render::stripped((#[trigger] fields[i]).0, false))
                <= render::name_width(fields, n),
        exists|i: int|
            0 <= i < n && width::text_columns(render::stripped((#[trigger] fields[i]).0, false))
                == render::name_width(fields, n),
    decreases n,
{
    let m = (n - 1) as nat;
    if m > 0 {
        widest_name(fields, m);
    }
    let last = width::text_columns(render::stripped(fields[n - 1].0, false));
    if last != render::name_width(fields, n) {
        let i = choose|i: int|
            0 <= i < m && width::text_columns(render::stripped((#[trigger] fields[i]).0, false))
                == render::name_width(fields, m);
        assert(width::text_columns(render::stripped(fields[i].0, false)) == render::name_width(
            fields,
            n,
        ));
    }
}

proof fn fields_shown(
    fields: Seq<(Seq<char>, ValueView)>,
    i: int,
    w: usize,
    replies: ReplySeq,
) -> (lines: Seq<Seq<char>>)
    requires
        0 <= i <= fields.len(),
        render::record_lines(fields, i, w, replies) is Ok,
        forall|k: int|
            0 <= k < fields.len() ==> width::text_columns(
                render::stripped((#[trigger] fields[k]).0, false),
            ) <= w,
    ensures
        lines.len() == fields.len(),
        render::record_lines(fields, i, w, replies) == Ok::<Seq<char>, StopView>(
            one_after_another(lines, i),
        ),
        forall|k: int|
            i <= k < fields.len() ==> field_line(#[trigger] lines[k], fields[k], w, replies),
    decreases fields.len() - i,
{
    if i == fields.len() {
        Seq::new(fields.len(), |k: int| Seq::<char>::empty())
    } else {
        let rest = fields_shown(fields, i + 1, w, replies);
        let t = render::colored(fields[i].1, replies)->Ok_0;
        let name = render::stripped(fields[i].0, false);
        let pad = table::padding(w, name);
        let line = "\x1b[32m"@ + name + "\x1b[0m"@ + pad + "  "@ + t + "\n"@;
        let lines = rest.update(i, line);
        same_tail(lines, rest, i + 1);
        assert(tables::frame(pad));
        assert(width::text_columns(render::stripped(fields[i].0, false)) <= w);
        assert(field_line(line, fields[i], w, replies));
        assert forall|k: int| i <= k < fields.len() implies field_line(
            #[trigger] lines[k],
            fields[k],
            w,
            replies,
        ) by {
            if k > i {
                assert(lines[k] == rest[k]);
            }
        }
        lines
    }
}

/// An error at a place shows its message, the line, and carets below that place: as
/// many as the marked text is wide, one at least, behind as many spaces as the text
/// before it is wide and the mark before the line takes up. Its advice comes last.
pub proof fn errors_point_at_their_place(
    e: ErrorView,
    source: Seq<char>,
    i: int,
    j: int,
    span: Span,
)
    requires
        0 <= i <= j <= source.len(),
        e.span == Some(span),
        span.start == text::byte_offset(source, i),
        span.end == text::byte_offset(source, j),
    ensures
        ({
            let before = width::text_columns(source.take(i));
            let marked = width::text_columns(source.subrange(i, j));
            let carets = if marked == 0 {
                1
            } else {
                marked as nat
            };
            let advice = match e.help {
                Some(help) => "\x1b[2mhelp: "@ + help + "\x1b[0m\n"@,
                None => Seq::empty(),
            };
            error::rendered(e, source) == "\x1b[1;31merror:\x1b[0m "@ + e.msg + "\n"@
                + "  \x1b[2m❯\x1b[0m "@ + source + "\n"@ + text::repeated(
                ' ',
                4 + before as nat,
            ) + "\x1b[31m"@ + text::repeated('^', carets) + "\x1b[0m\n"@ + advice
        }),
{
    at_a_character(source, i);
    at_a_character(source, j);
    assert(error::span_prefix(source, span) == source.take(i));
    assert(error::spanned_text(source, span) == source.subrange(i, j));
    let before = width::text_columns(source.take(i));
    reveal_strlit("    ");
    assert("    "@ =~= text::repeated(' ', 4));
    assert(text::repeated(' ', 4) + text::repeated(' ', before as nat) =~= text::repeated(
        ' ',
        4 + before as nat,
    ));
    let marked = width::text_columns(source.subrange(i, j));
    let carets = if marked == 0 {
        1
    } else {
        marked as nat
    };
    let advice = match e.help {
        Some(help) => "\x1b[2mhelp: "@ + help + "\x1b[0m\n"@,
        None => Seq::empty(),
    };
    let all = "\x1b[1;31merror:\x1b[0m "@ + e.msg + "\n"@ + "  \x1b[2m❯\x1b[0m "@ + source
        + "\n"@ + text::repeated(' ', 4 + before as nat) + "\x1b[31m"@ + text::repeated('^', carets)
        + "\x1b[0m\n"@ + advice;
    assert(error::rendered(e, source) =~= all);
}

proof fn at_a_character(source: Seq<char>, i: int)
    requires
        0 <= i <= source.len(),
    ensures
        text::floor_index(source, text::byte_offset(source, i) as int) == i,
{
    if i < source.len() {
        text::byte_offset_step(source, i);
    }
    text::floor_index_is(source, text::byte_offset(source, i) as int, i);
}

/// A string with variables in it is its pieces in their order, each variable as the
/// text of its value; a variable that is not there is an error.
pub proof fn variables_are_filled_in(
    a: Seq<char>,
    name: Seq<char>,
    b: Seq<char>,
    v: ValueView,
    shown: Seq<char>,
    scope: ScopeSeq,
    span: Span,
    replies: ReplySeq,
)
    requires
        render::plain_text(v, replies) == Ok::<Seq<char>, StopView>(shown),
    ensures
        ({
            let parts = seq![
                InterpPartView::Lit(a),
                InterpPartView::Var(name),
                InterpPartView::Lit(b),
            ];
            let r = expr::interpolated(Style::Cell, parts, scope, span, replies);
            &&& value::lookup(scope, name) == Some(v) ==> r == Ok::<Seq<char>, StopView>(
                a + shown + b,
            )
            &&& value::lookup(scope, name) is None ==> r matches Err(StopView::Fail(_))
        }),
{
    reveal_with_fuel(expr::interpolated, 4);
    let parts = seq![InterpPartView::Lit(a), InterpPartView::Var(name), InterpPartView::Lit(b)];
    assert(parts.drop_last() =~= seq![InterpPartView::Lit(a), InterpPartView::Var(name)]);
    assert(parts.drop_last().drop_last() =~= seq![InterpPartView::Lit(a)]);
    assert(parts.drop_last().drop_last().drop_last() =~= Seq::empty());
    assert(Seq::<char>::empty() + a =~= a);
}

/// Plain text of a value, as it stands in a cell: nothing for null, the digits of an
/// integer, and of what holds more only how much it holds.
pub proof fn cells_show_scalars_and_sizes(
    n: i64,
    s: Seq<char>,
    items: Seq<ValueView>,
    fields: Seq<(Seq<char>, ValueView)>,
    bytes: Seq<u8>,
    replies: ReplySeq,
)
    ensures
        render::plain_text(ValueView::Null, replies) == Ok::<Seq<char>, StopView>(Seq::empty()),
        render::plain_text(ValueView::Bool(true), replies) == Ok::<Seq<char>, StopView>("true"@),
        render::plain_text(ValueView::Bool(false), replies) == Ok::<Seq<char>, StopView>(
            "false"@,
        ),
        render::plain_text(ValueView::Int(n), replies) == Ok::<Seq<char>, StopView>(
            text::decimal_text(n as int),
        ),
        render::plain_text(ValueView::Str(s), replies) == Ok::<Seq<char>, StopView>(s),
        render::plain_text(ValueView::List(items), replies) == Ok::<Seq<char>, StopView>(
            "["@ + text::numeral(items.len()) + " items]"@,
        ),
        render::plain_text(ValueView::Record(fields), replies) == Ok::<Seq<char>, StopView>(
            "{"@ + text::numeral(fields.len()) + " fields}"@,
        ),
        render::plain_text(ValueView::Bytes(bytes), replies) == Ok::<Seq<char>, StopView>(
            "["@ + text::numeral(bytes.len()) + " bytes]"@,
        ),
{
}

} // verus!
