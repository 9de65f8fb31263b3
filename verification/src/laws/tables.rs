//! How tables line up: what their lines show once the escapes are out, and how
//! many columns that takes up.

use crate::ask::{ReplySeq, StopView};
use crate::laws::display;
use crate::render;
use crate::render::table;
use crate::text;
use crate::value;
use crate::value::ValueView;
use crate::width;
use vstd::prelude::*;

verus! {

/// A cell of a line: what is drawn before its text, the text, what is drawn after.
pub type Piece = (Seq<char>, Seq<char>, Seq<char>);

/// What is drawn round a text: spaces and lines of the frame, one column each.
pub open spec fn frame(s: Seq<char>) -> bool {
    forall|k: int|
        0 <= k < s.len() ==> {
            let c = #[trigger] s[k];
            c == ' ' || c == '│' || c == '─' || c == '┌' || c == '┬' || c == '┐' || c == '├' || c
                == '┼' || c == '┤' || c == '└' || c == '┴' || c == '┘'
        }
}

/// The columns of a cell: one for each character of the frame, and those of the
/// text.
pub open spec fn taken(p: Piece) -> int {
    p.0.len() + width::text_columns(p.1) + p.2.len()
}

/// The cells one after the other, from one on.
pub open spec fn joined(cells: Seq<Piece>, i: int) -> Seq<char>
    decreases cells.len() - i,
{
    if !(0 <= i < cells.len()) {
        Seq::empty()
    } else {
        cells[i].0 + cells[i].1 + cells[i].2 + joined(cells, i + 1)
    }
}

/// A line shows as a character of the frame and then these cells.
pub open spec fn shows_as(line: Seq<char>, lead: char, cells: Seq<Piece>) -> bool {
    &&& frame(seq![lead])
    &&& render::stripped(line, false) == seq![lead] + joined(cells, 0)
    &&& forall|k: int| 0 <= k < cells.len() ==> frame((#[trigger] cells[k]).0) && frame(cells[k].2)
}

/// A line takes up a column for its first character, and for each column of the
/// table its width and three more.
pub open spec fn lines_up(line: Seq<char>, widths: Seq<usize>) -> bool {
    exists|lead: char, cells: Seq<Piece>| #[trigger]
        shows_as(line, lead, cells) && cells.len() == widths.len() && forall|k: int|
            0 <= k < cells.len() ==> taken(#[trigger] cells[k]) == widths[k] + 3
}

/// A text as it is cut for a column: whole where it fits, else a beginning of it
/// and an ellipsis.
pub open spec fn cut_of(t: Seq<char>, w: usize, shown: Seq<char>) -> bool {
    if width::text_columns(t) <= w {
        shown == t
    } else {
        &&& shown.len() > 0
        &&& shown.last() == '…'
        &&& shown.len() - 1 <= t.len()
        &&& shown.drop_last() == t.take(shown.len() - 1)
    }
}

/// The columns of the first characters of a text, counted one by one.
pub open spec fn counted(t: Seq<char>, n: int) -> int
    decreases n,
{
    if n <= 0 {
        0
    } else {
        counted(t, n - 1) + width::text_columns(seq![t[n - 1]])
    }
}

proof fn fitting_is(t: Seq<char>, i: int, used: usize, room: usize)
    requires
        0 <= i <= t.len(),
        used == counted(t, i),
        used <= room,
        room < usize::MAX,
    ensures
        ({
            let k = table::fitting(t, i, used, room);
            &&& i <= k <= t.len()
            &&& counted(t, k) <= room
            &&& k < t.len() ==> counted(t, k + 1) > room
        }),
    decreases t.len() - i,
{
    if i < t.len() {
        let next = used.saturating_add(width::text_columns(seq![t[i]]));
        assert(counted(t, i + 1) == used + width::text_columns(seq![t[i]]));
        if next <= room {
            fitting_is(t, i + 1, next, room);
        }
    }
}

/// A text that fits its column is left as it is. One that does not is cut behind as
/// many of its characters as leave a column for the ellipsis, counted one by one.
pub proof fn cutting_keeps_what_fits(t: Seq<char>, w: usize)
    ensures
        cut_of(t, w, table::truncated(t, w)),
        width::text_columns(t) > w && w > 0 ==> {
            let k = table::truncated(t, w).len() - 1;
            &&& counted(t, k) <= w - 1
            &&& k < t.len() ==> counted(t, k + 1) > w - 1
        },
{
    let room = w.saturating_sub(1);
    fitting_is(t, 0, 0, room);
    if width::text_columns(t) > w {
        let k = table::fitting(t, 0, 0, room);
        assert(table::truncated(t, w).drop_last() =~= t.take(k));
    }
}

pub open spec fn plain(t: Seq<char>) -> bool {
    forall|k: int| 0 <= k < t.len() ==> !text::control(#[trigger] t[k])
}

proof fn cut_is_plain(t: Seq<char>, w: usize)
    requires
        plain(t),
    ensures
        plain(table::truncated(t, w)),
{
    fitting_is(t, 0, 0, w.saturating_sub(1));
}

/// The cell that a text comes to in a column.
spec fn cell(t: Seq<char>, numeric: bool, w: usize) -> Piece {
    let cut = table::truncated(t, w);
    let pad = table::padding(w, cut);
    if numeric {
        (seq![' '] + pad, cut, seq![' ', '│'])
    } else {
        (seq![' '], cut, pad + seq![' ', '│'])
    }
}

proof fn codes()
    ensures
        " "@ == seq![' '],
        " │"@ == seq![' ', '│'],
        "│"@ == seq!['│'],
        "\x1b[36m"@ == seq!['\x1b', '['] + seq!['3', '6'] + seq!['m'],
        "\x1b[0m │"@ == seq!['\x1b', '['] + seq!['0'] + seq!['m'] + seq![' ', '│'],
        "\x1b[0m"@ == seq!['\x1b', '['] + seq!['0'] + seq!['m'],
        " \x1b[1m"@ == seq![' '] + (seq!['\x1b', '['] + seq!['1'] + seq!['m']),
{
    reveal_strlit(" ");
    reveal_strlit(" │");
    reveal_strlit("│");
    reveal_strlit("\x1b[36m");
    reveal_strlit("\x1b[0m │");
    reveal_strlit("\x1b[0m");
    reveal_strlit(" \x1b[1m");
    assert(" "@ =~= seq![' ']);
    assert(" │"@ =~= seq![' ', '│']);
    assert("│"@ =~= seq!['│']);
    assert("\x1b[36m"@ =~= seq!['\x1b', '['] + seq!['3', '6'] + seq!['m']);
    assert("\x1b[0m │"@ =~= seq!['\x1b', '['] + seq!['0'] + seq!['m'] + seq![' ', '│']);
    assert("\x1b[0m"@ =~= seq!['\x1b', '['] + seq!['0'] + seq!['m']);
    assert(" \x1b[1m"@ =~= seq![' '] + (seq!['\x1b', '['] + seq!['1'] + seq!['m']));
}

proof fn cell_shows(t: Seq<char>, numeric: bool, w: usize, rest: Seq<char>)
    requires
        plain(t),
    ensures
        render::stripped(table::data_cell(t, numeric, w) + rest, false) == cell(t, numeric, w).0
            + cell(t, numeric, w).1 + cell(t, numeric, w).2 + render::stripped(rest, false),
{
    codes();
    let cut = table::truncated(t, w);
    cut_is_plain(t, w);
    let pad = table::padding(w, cut);
    let end = seq![' ', '│'];
    let tail = render::stripped(rest, false);
    if numeric {
        let reset = seq!['\x1b', '['] + seq!['0'] + seq!['m'];
        let cyan = seq!['\x1b', '['] + seq!['3', '6'] + seq!['m'];
        let a = seq![' '] + pad;
        display::plain_text_shows(end, rest, false);
        display::control_sequences_do_not_show(seq!['0'], 'm', end + rest, false);
        display::plain_text_shows(cut, reset + (end + rest), false);
        display::control_sequences_do_not_show(
            seq!['3', '6'],
            'm',
            cut + (reset + (end + rest)),
            false,
        );
        display::plain_text_shows(a, cyan + (cut + (reset + (end + rest))), false);
        assert(table::data_cell(t, numeric, w) + rest =~= a + (cyan + (cut + (reset + (end
            + rest)))));
        assert(a + (cut + (end + tail)) =~= a + cut + end + tail);
    } else {
        let all = seq![' '] + cut + pad + end;
        display::plain_text_shows(all, rest, false);
        assert(table::data_cell(t, numeric, w) + rest =~= all + rest);
        assert(all + tail =~= seq![' '] + cut + (pad + end) + tail);
    }
}

/// What stands in a row under a column: the text of the field, or nothing.
pub open spec fn holds(
    row: ValueView,
    col: Seq<char>,
    t: Seq<char>,
    numeric: bool,
    replies: ReplySeq,
) -> bool {
    match row {
        ValueView::Record(fields) => {
            ||| exists|k: int|
                {
                    &&& 0 <= k < fields.len()
                    &&& (#[trigger] fields[k]).0 == col
                    &&& numeric == (fields[k].1 is Int || fields[k].1 is Float)
                    &&& render::plain_text(fields[k].1, replies) matches Ok(full)
                    &&& t == render::stripped(full, false)
                }
            ||| t.len() == 0 && !numeric && forall|k: int|
                0 <= k < fields.len() ==> (#[trigger] fields[k]).0 != col
        },
        _ => t.len() == 0 && !numeric,
    }
}

proof fn cell_holds(row: ValueView, col: Seq<char>, replies: ReplySeq)
    ensures
        table::cell_of(row, col, replies) matches Ok((t, numeric)) ==> holds(
            row,
            col,
            t,
            numeric,
            replies,
        ) && plain(t),
{
    if let ValueView::Record(fields) = row {
        value::position_is_first(fields, col);
        if let Some(v) = value::lookup(fields, col) {
            if let Ok(full) = render::plain_text(v, replies) {
                render::stripped_text_is_clean(full, false);
            }
        }
    }
}

spec fn row_pieces(
    row: ValueView,
    cols: Seq<Seq<char>>,
    widths: Seq<usize>,
    replies: ReplySeq,
) -> Seq<Piece> {
    Seq::new(
        cols.len(),
        |k: int|
            {
                let c = table::cell_of(row, cols[k], replies)->Ok_0;
                cell(c.0, c.1, widths[k])
            },
    )
}

proof fn row_shows(
    row: ValueView,
    cols: Seq<Seq<char>>,
    widths: Seq<usize>,
    i: int,
    replies: ReplySeq,
)
    requires
        0 <= i <= cols.len(),
        cols.len() == widths.len(),
    ensures
        table::row_cells(row, cols, widths, i, replies) matches Ok(t) ==> {
            &&& render::stripped(t, false) == joined(row_pieces(row, cols, widths, replies), i)
            &&& forall|k: int|
                i <= k < cols.len() ==> table::cell_of(row, #[trigger] cols[k], replies) is Ok
        },
    decreases cols.len() - i,
{
    if i < cols.len() {
        row_shows(row, cols, widths, i + 1, replies);
        if let Ok(t) = table::row_cells(row, cols, widths, i, replies) {
            let c = table::cell_of(row, cols[i], replies)->Ok_0;
            cell_holds(row, cols[i], replies);
            let rest = table::row_cells(row, cols, widths, i + 1, replies)->Ok_0;
            cell_shows(c.0, c.1, widths[i], rest);
        }
    }
}

proof fn padding_fills(w: usize, t: Seq<char>)
    ensures
        frame(table::padding(w, t)),
        forall|k: int| 0 <= k < table::padding(w, t).len() ==> #[trigger] table::padding(w, t)[k]
            == ' ',
        width::text_columns(t) <= w ==> table::padding(w, t).len() + width::text_columns(t) == w,
        width::text_columns(t) > w ==> table::padding(w, t).len() == 0,
{
}

/// A cell of a row: the text cut for the column, between spaces. Where the cut
/// text fits, it takes up the width of the column and three columns more. A number
/// ends right before the closing space, a text starts right behind the opening one.
pub open spec fn well_set(p: Piece, t: Seq<char>, numeric: bool, w: usize) -> bool {
    &&& cut_of(t, w, p.1)
    &&& frame(p.0) && frame(p.2)
    &&& p.0.len() > 0 && p.0[0] == ' '
    &&& p.2.len() >= 2 && p.2[p.2.len() - 2] == ' ' && p.2.last() == '│'
    &&& width::text_columns(p.1) <= w ==> taken(p) == w + 3
    &&& width::text_columns(p.1) > w ==> p.0 == seq![' '] && p.2 == seq![' ', '│']
    &&& numeric ==> p.2 == seq![' ', '│']
    &&& !numeric ==> p.0 == seq![' ']
}

/// A cell shows what a row has under a column.
pub open spec fn shows_field(
    p: Piece,
    row: ValueView,
    col: Seq<char>,
    w: usize,
    replies: ReplySeq,
) -> bool {
    exists|t: Seq<char>, numeric: bool| #[trigger]
        holds(row, col, t, numeric, replies) && well_set(p, t, numeric, w)
}

/// A row of a table shows as a bar and one cell for each column: under each name
/// the text of the row's field, set into its column.
pub proof fn rows_show_their_fields(
    row: ValueView,
    cols: Seq<Seq<char>>,
    widths: Seq<usize>,
    replies: ReplySeq,
)
    requires
        cols.len() == widths.len(),
    ensures
        table::row_text(row, cols, widths, replies) matches Ok(text) ==> {
            &&& text.len() > 0 && text.last() == '\n'
            &&& exists|cells: Seq<Piece>| #[trigger]
                shows_as(text.drop_last(), '│', cells) && cells.len() == cols.len() && forall|
                    k: int,
                |
                    0 <= k < cols.len() ==> shows_field(
                        #[trigger] cells[k],
                        row,
                        cols[k],
                        widths[k],
                        replies,
                    )
        },
{
    row_shows(row, cols, widths, 0, replies);
    if let Ok(text) = table::row_text(row, cols, widths, replies) {
        codes();
        let inner = table::row_cells(row, cols, widths, 0, replies)->Ok_0;
        let cells = row_pieces(row, cols, widths, replies);
        assert(text.drop_last() =~= seq!['│'] + inner);
        display::plain_text_shows(seq!['│'], inner, false);
        assert forall|k: int| 0 <= k < cols.len() implies shows_field(
            #[trigger] cells[k],
            row,
            cols[k],
            widths[k],
            replies,
        ) by {
            assert(table::cell_of(row, cols[k], replies) is Ok);
            let c = table::cell_of(row, cols[k], replies)->Ok_0;
            cell_holds(row, cols[k], replies);
            cutting_keeps_what_fits(c.0, widths[k]);
            padding_fills(widths[k], table::truncated(c.0, widths[k]));
            assert(cells[k] == cell(c.0, c.1, widths[k]));
            assert(holds(row, cols[k], c.0, c.1, replies));
            assert(well_set(cells[k], c.0, c.1, widths[k]));
        }
        assert forall|k: int| 0 <= k < cells.len() implies frame((#[trigger] cells[k]).0) && frame(
            cells[k].2,
        ) by {
            assert(shows_field(cells[k], row, cols[k], widths[k], replies));
        }
        assert(shows_as(text.drop_last(), '│', cells));
    }
}

spec fn head_pieces(cols: Seq<Seq<char>>, widths: Seq<usize>) -> Seq<Piece> {
    Seq::new(cols.len(), |k: int| cell(table::header_text(cols[k]), false, widths[k]))
}

proof fn head_shows(cols: Seq<Seq<char>>, widths: Seq<usize>, i: int)
    requires
        0 <= i <= cols.len(),
        cols.len() == widths.len(),
    ensures
        render::stripped(table::header_cells(cols, widths, i), false) == joined(
            head_pieces(cols, widths),
            i,
        ),
    decreases cols.len() - i,
{
    if i < cols.len() {
        head_shows(cols, widths, i + 1);
        codes();
        let t = table::header_text(cols[i]);
        render::stripped_text_is_clean(cols[i], false);
        let w = widths[i];
        let cut = table::truncated(t, w);
        cut_is_plain(t, w);
        let pad = table::padding(w, cut);
        let rest = table::header_cells(cols, widths, i + 1);
        let bold = seq!['\x1b', '['] + seq!['1'] + seq!['m'];
        let reset = seq!['\x1b', '['] + seq!['0'] + seq!['m'];
        let end = pad + seq![' ', '│'];
        display::plain_text_shows(end, rest, false);
        display::control_sequences_do_not_show(seq!['0'], 'm', end + rest, false);
        display::plain_text_shows(cut, reset + (end + rest), false);
        display::control_sequences_do_not_show(
            seq!['1'],
            'm',
            cut + (reset + (end + rest)),
            false,
        );
        display::plain_text_shows(seq![' '], bold + (cut + (reset + (end + rest))), false);
        assert(table::header_cells(cols, widths, i) =~= seq![' '] + (bold + (cut + (reset + (end
            + rest)))));
        let tail = render::stripped(rest, false);
        assert(seq![' '] + (cut + (end + tail)) =~= seq![' '] + cut + end + tail);
    }
}

/// The middle line of the header shows the names of the columns, each set into its
/// column as a text.
pub proof fn headers_show_the_names(cols: Seq<Seq<char>>, widths: Seq<usize>, line: Seq<char>)
    requires
        cols.len() == widths.len(),
        line == "│"@ + table::header_cells(cols, widths, 0),
    ensures
        exists|cells: Seq<Piece>| #[trigger]
            shows_as(line, '│', cells) && cells.len() == cols.len() && forall|k: int|
                0 <= k < cols.len() ==> well_set(
                    #[trigger] cells[k],
                    render::stripped(cols[k], false),
                    false,
                    widths[k],
                ),
{
    codes();
    head_shows(cols, widths, 0);
    let cells = head_pieces(cols, widths);
    display::plain_text_shows(seq!['│'], table::header_cells(cols, widths, 0), false);
    assert forall|k: int| 0 <= k < cols.len() implies well_set(
        #[trigger] cells[k],
        render::stripped(cols[k], false),
        false,
        widths[k],
    ) by {
        let t = table::header_text(cols[k]);
        cutting_keeps_what_fits(t, widths[k]);
        padding_fills(widths[k], table::truncated(t, widths[k]));
    }
    assert forall|k: int| 0 <= k < cells.len() implies frame((#[trigger] cells[k]).0) && frame(
        cells[k].2,
    ) by {
        assert(well_set(cells[k], render::stripped(cols[k], false), false, widths[k]));
    }
    assert(shows_as(line, '│', cells));
}

/// A rule is drawn over each column and the spaces beside it, with a joint behind
/// each, and another character behind the last.
pub open spec fn ruled(line: Seq<char>, left: char, mid: char, right: char, widths: Seq<usize>) -> bool {
    exists|cells: Seq<Piece>| #[trigger]
        shows_as(line, left, cells) && cells.len() == widths.len() && forall|k: int|
            0 <= k < cells.len() ==> {
                &&& (#[trigger] cells[k]).0 == text::repeated('─', (widths[k] + 2) as nat)
                &&& cells[k].1.len() == 0
                &&& cells[k].2 == seq![
                    if k + 1 == widths.len() {
                        right
                    } else {
                        mid
                    },
                ]
            }
}

spec fn rule_pieces(widths: Seq<usize>, mid: char, right: char) -> Seq<Piece> {
    Seq::new(
        widths.len(),
        |k: int|
            (
                text::repeated('─', (widths[k] + 2) as nat),
                Seq::<char>::empty(),
                seq![
                    if k + 1 == widths.len() {
                        right
                    } else {
                        mid
                    },
                ],
            ),
    )
}

proof fn rule_joins(widths: Seq<usize>, i: int, mid: char, right: char)
    requires
        0 <= i <= widths.len(),
        forall|k: int| 0 <= k < widths.len() ==> #[trigger] widths[k] <= usize::MAX - 2,
    ensures
        table::rule_from(widths, i, seq![mid], seq![right]) == joined(
            rule_pieces(widths, mid, right),
            i,
        ),
    decreases widths.len() - i,
{
    if i < widths.len() {
        rule_joins(widths, i + 1, mid, right);
        let p = rule_pieces(widths, mid, right)[i];
        assert(widths[i] <= usize::MAX - 2);
        assert(widths[i].saturating_add(2) == widths[i] + 2);
        assert(p.0 + p.1 + p.2 =~= p.0 + p.2);
    }
}

proof fn joined_is_plain(cells: Seq<Piece>, i: int)
    requires
        0 <= i,
        forall|k: int|
            0 <= k < cells.len() ==> frame((#[trigger] cells[k]).0) && frame(cells[k].2) && plain(
                cells[k].1,
            ),
    ensures
        plain(joined(cells, i)),
    decreases cells.len() - i,
{
    if i < cells.len() {
        joined_is_plain(cells, i + 1);
        assert(frame(cells[i].0));
    }
}

proof fn a_rule(widths: Seq<usize>, left: char, mid: char, right: char)
    requires
        frame(seq![left]),
        frame(seq![mid]),
        frame(seq![right]),
        forall|k: int| 0 <= k < widths.len() ==> #[trigger] widths[k] <= usize::MAX - 2,
    ensures
        ({
            let t = table::rule_text(widths, seq![left], seq![mid], seq![right]);
            t.len() > 0 && t.last() == '\n' && ruled(t.drop_last(), left, mid, right, widths)
        }),
{
    let t = table::rule_text(widths, seq![left], seq![mid], seq![right]);
    let cells = rule_pieces(widths, mid, right);
    rule_joins(widths, 0, mid, right);
    assert(t.drop_last() =~= seq![left] + joined(cells, 0));
    assert(seq![mid][0] == mid && seq![right][0] == right && seq![left][0] == left);
    assert forall|k: int| 0 <= k < cells.len() implies frame((#[trigger] cells[k]).0) && frame(
        cells[k].2,
    ) && plain(cells[k].1) by {
        let r = text::repeated('─', (widths[k] + 2) as nat);
        assert forall|j: int| 0 <= j < r.len() implies #[trigger] r[j] == '─' by {}
        assert(cells[k].0 == r);
    }
    joined_is_plain(cells, 0);
    let line = t.drop_last();
    assert(line + Seq::<char>::empty() =~= line);
    display::plain_text_shows(line, Seq::empty(), false);
    assert(render::stripped(Seq::empty(), false) =~= Seq::<char>::empty());
    assert(shows_as(line, left, cells));
}

proof fn strokes()
    ensures
        "┌"@ == seq!['┌'],
        "┬"@ == seq!['┬'],
        "┐"@ == seq!['┐'],
        "├"@ == seq!['├'],
        "┼"@ == seq!['┼'],
        "┤"@ == seq!['┤'],
        "└"@ == seq!['└'],
        "┴"@ == seq!['┴'],
        "┘"@ == seq!['┘'],
{
    reveal_strlit("┌");
    reveal_strlit("┬");
    reveal_strlit("┐");
    reveal_strlit("├");
    reveal_strlit("┼");
    reveal_strlit("┤");
    reveal_strlit("└");
    reveal_strlit("┴");
    reveal_strlit("┘");
    assert("┌"@ =~= seq!['┌']);
    assert("┬"@ =~= seq!['┬']);
    assert("┐"@ =~= seq!['┐']);
    assert("├"@ =~= seq!['├']);
    assert("┼"@ =~= seq!['┼']);
    assert("┤"@ =~= seq!['┤']);
    assert("└"@ =~= seq!['└']);
    assert("┴"@ =~= seq!['┴']);
    assert("┘"@ =~= seq!['┘']);
}

/// The text of a whole table, line by line.
pub open spec fn lines_of(lines: Seq<Seq<char>>, i: int) -> Seq<char>
    decreases lines.len() - i,
{
    if !(0 <= i < lines.len()) {
        Seq::empty()
    } else {
        lines[i].push('\n') + lines_of(lines, i + 1)
    }
}

/// The cut texts of a table fit their columns.
pub open spec fn all_fit(
    rows: Seq<ValueView>,
    cols: Seq<Seq<char>>,
    widths: Seq<usize>,
    replies: ReplySeq,
) -> bool {
    &&& forall|i: int, k: int|
        0 <= i < rows.len() && 0 <= k < cols.len() && k < widths.len() ==> (table::cell_of(
            #[trigger] rows[i],
            #[trigger] cols[k],
            replies,
        ) matches Ok((t, _)) ==> width::text_columns(table::truncated(t, widths[k]))
            <= widths[k])
    &&& forall|k: int|
        0 <= k < cols.len() && k < widths.len() ==> width::text_columns(
            table::truncated(render::stripped(#[trigger] cols[k], false), widths[k]),
        ) <= widths[k]
}

proof fn row_lines_up(
    row: ValueView,
    cols: Seq<Seq<char>>,
    widths: Seq<usize>,
    replies: ReplySeq,
)
    requires
        cols.len() == widths.len(),
        forall|k: int|
            0 <= k < cols.len() ==> (table::cell_of(row, #[trigger] cols[k], replies) matches Ok(
                (t, _),
            ) ==> width::text_columns(table::truncated(t, widths[k])) <= widths[k]),
    ensures
        table::row_text(row, cols, widths, replies) matches Ok(text) ==> text.len() > 0
            && text.last() == '\n' && lines_up(text.drop_last(), widths),
{
    row_shows(row, cols, widths, 0, replies);
    if let Ok(text) = table::row_text(row, cols, widths, replies) {
        codes();
        let inner = table::row_cells(row, cols, widths, 0, replies)->Ok_0;
        let cells = row_pieces(row, cols, widths, replies);
        assert(text.drop_last() =~= seq!['│'] + inner);
        display::plain_text_shows(seq!['│'], inner, false);
        assert forall|k: int| 0 <= k < cells.len() implies taken(#[trigger] cells[k]) == widths[k]
            + 3 && frame(cells[k].0) && frame(cells[k].2) by {
            assert(table::cell_of(row, cols[k], replies) is Ok);
            let c = table::cell_of(row, cols[k], replies)->Ok_0;
            padding_fills(widths[k], table::truncated(c.0, widths[k]));
        }
        assert(shows_as(text.drop_last(), '│', cells));
    }
}

proof fn head_lines_up(cols: Seq<Seq<char>>, widths: Seq<usize>)
    requires
        cols.len() == widths.len(),
        forall|k: int|
            0 <= k < cols.len() ==> width::text_columns(
                table::truncated(render::stripped(#[trigger] cols[k], false), widths[k]),
            ) <= widths[k],
    ensures
        lines_up("│"@ + table::header_cells(cols, widths, 0), widths),
{
    let line = "│"@ + table::header_cells(cols, widths, 0);
    codes();
    head_shows(cols, widths, 0);
    let cells = head_pieces(cols, widths);
    display::plain_text_shows(seq!['│'], table::header_cells(cols, widths, 0), false);
    assert forall|k: int| 0 <= k < cells.len() implies taken(#[trigger] cells[k]) == widths[k] + 3
        && frame(cells[k].0) && frame(cells[k].2) by {
        let t = table::header_text(cols[k]);
        assert(t == render::stripped(cols[k], false));
        padding_fills(widths[k], table::truncated(t, widths[k]));
    }
    assert(shows_as(line, '│', cells));
}

proof fn rule_lines_up(line: Seq<char>, left: char, mid: char, right: char, widths: Seq<usize>)
    requires
        ruled(line, left, mid, right, widths),
        width::text_columns(Seq::empty()) == 0,
    ensures
        lines_up(line, widths),
{
    let cells = choose|cells: Seq<Piece>| #[trigger]
        shows_as(line, left, cells) && cells.len() == widths.len() && forall|k: int|
            0 <= k < cells.len() ==> {
                &&& (#[trigger] cells[k]).0 == text::repeated('─', (widths[k] + 2) as nat)
                &&& cells[k].1.len() == 0
                &&& cells[k].2 == seq![
                    if k + 1 == widths.len() {
                        right
                    } else {
                        mid
                    },
                ]
            };
    assert forall|k: int| 0 <= k < cells.len() implies taken(#[trigger] cells[k]) == widths[k]
        + 3 by {
        assert(cells[k].1 =~= Seq::empty());
    }
    assert(shows_as(line, left, cells));
}

spec fn row_lines(
    rows: Seq<ValueView>,
    cols: Seq<Seq<char>>,
    widths: Seq<usize>,
    replies: ReplySeq,
) -> Seq<Seq<char>> {
    Seq::new(
        rows.len(),
        |i: int| table::row_text(rows[i], cols, widths, replies)->Ok_0.drop_last(),
    )
}

proof fn rows_are_lines(
    rows: Seq<ValueView>,
    cols: Seq<Seq<char>>,
    widths: Seq<usize>,
    i: int,
    replies: ReplySeq,
)
    requires
        0 <= i <= rows.len(),
    ensures
        table::rows_text(rows, cols, widths, i, replies) matches Ok(t) ==> {
            &&& t == lines_of(row_lines(rows, cols, widths, replies), i)
            &&& forall|k: int|
                i <= k < rows.len() ==> table::row_text(
                    #[trigger] rows[k],
                    cols,
                    widths,
                    replies,
                ) is Ok
        },
    decreases rows.len() - i,
{
    if i < rows.len() {
        rows_are_lines(rows, cols, widths, i + 1, replies);
        if let Ok(t) = table::rows_text(rows, cols, widths, i, replies) {
            let one = table::row_text(rows[i], cols, widths, replies)->Ok_0;
            assert(one.drop_last().push('\n') =~= one);
        }
    }
}

proof fn lines_in_two(a: Seq<Seq<char>>, b: Seq<Seq<char>>, i: int)
    requires
        0 <= i <= a.len(),
    ensures
        lines_of(a + b, i) == lines_of(a, i) + lines_of(b, 0),
    decreases a.len() - i,
{
    if i < a.len() {
        lines_in_two(a, b, i + 1);
        assert(lines_of(a + b, i) =~= lines_of(a, i) + lines_of(b, 0));
    } else {
        lines_later(a, b, 0);
        assert(lines_of(a, i) + lines_of(b, 0) =~= lines_of(b, 0));
    }
}

proof fn lines_later(a: Seq<Seq<char>>, b: Seq<Seq<char>>, i: int)
    requires
        0 <= i <= b.len(),
    ensures
        lines_of(a + b, a.len() + i) == lines_of(b, i),
    decreases b.len() - i,
{
    if i < b.len() {
        lines_later(a, b, i + 1);
        assert((a + b)[a.len() + i] == b[i]);
    }
}

proof fn names_stay_names(rows: Seq<ValueView>, replies: ReplySeq, width: u16)
    ensures
        table::settled_widths(table::columns_of(rows), rows, width, replies) matches Ok(ws)
            ==> ws.len() == table::columns_of(rows).len(),
{
    let cols = table::columns_of(rows);
    naturals(cols, rows, 0, replies);
    if let Ok(ws) = table::natural_widths(cols, rows, 0, replies) {
        table::shrunk_fits_or_is_at_the_floor(ws, table::budget_of(width, cols.len()));
    }
}

proof fn naturals(cols: Seq<Seq<char>>, rows: Seq<ValueView>, i: int, replies: ReplySeq)
    requires
        0 <= i <= cols.len(),
    ensures
        table::natural_widths(cols, rows, i, replies) matches Ok(ws) ==> {
            &&& ws.len() == cols.len() - i
            &&& forall|k: int|
                0 <= k < ws.len() ==> table::widest_cell(
                    rows,
                    cols[i + k],
                    0,
                    width::text_columns(table::header_text(cols[i + k])),
                    replies,
                ) == Ok::<usize, StopView>(#[trigger] ws[k])
        },
    decreases cols.len() - i,
{
    if i < cols.len() {
        naturals(cols, rows, i + 1, replies);
        if let Ok(ws) = table::natural_widths(cols, rows, i, replies) {
            let rest = table::natural_widths(cols, rows, i + 1, replies)->Ok_0;
            assert forall|k: int| 0 <= k < ws.len() implies table::widest_cell(
                rows,
                cols[i + k],
                0,
                width::text_columns(table::header_text(cols[i + k])),
                replies,
            ) == Ok::<usize, StopView>(#[trigger] ws[k]) by {
                if k > 0 {
                    assert(ws[k] == rest[k - 1]);
                    assert(cols[i + 1 + (k - 1)] == cols[i + k]);
                }
            }
        }
    }
}

/// A table is a rule, its header, a rule, a line for each row in their order, and a
/// rule. Where the cut texts fit their columns, all these lines take up the same
/// number of columns.
pub proof fn lines_of_a_table_are_equally_wide(
    rows: Seq<ValueView>,
    width: u16,
    replies: ReplySeq,
    widths: Seq<usize>,
)
    requires
        table::columns_of(rows).len() > 0,
        table::settled_widths(table::columns_of(rows), rows, width, replies) == Ok::<
            Seq<usize>,
            StopView,
        >(widths),
        forall|k: int| 0 <= k < widths.len() ==> #[trigger] widths[k] <= usize::MAX - 2,
        width::text_columns(Seq::empty()) == 0,
        all_fit(rows, table::columns_of(rows), widths, replies),
    ensures
        table::table_text(rows, width, replies) matches Ok(t) ==> exists|lines: Seq<Seq<char>>|
            {
                &&& t == #[trigger] lines_of(lines, 0)
                &&& lines.len() == rows.len() + 4
                &&& ruled(lines[0], '┌', '┬', '┐', widths)
                &&& lines[1] == "│"@ + table::header_cells(table::columns_of(rows), widths, 0)
                &&& ruled(lines[2], '├', '┼', '┤', widths)
                &&& ruled(lines[lines.len() - 1], '└', '┴', '┘', widths)
                &&& forall|i: int|
                    0 <= i < rows.len() ==> table::row_text(
                        #[trigger] rows[i],
                        table::columns_of(rows),
                        widths,
                        replies,
                    ) == Ok::<Seq<char>, StopView>(lines[i + 3].push('\n'))
                &&& forall|i: int| 0 <= i < lines.len() ==> lines_up(#[trigger] lines[i], widths)
            },
{
    if let Ok(t) = table::table_text(rows, width, replies) {
        let cols = table::columns_of(rows);
        names_stay_names(rows, replies, width);
        strokes();
        codes();
        assert(seq!['┌'][0] == '┌' && seq!['┬'][0] == '┬' && seq!['┐'][0] == '┐');
        a_rule(widths, '┌', '┬', '┐');
        a_rule(widths, '├', '┼', '┤');
        a_rule(widths, '└', '┴', '┘');
        let top = table::rule_text(widths, "┌"@, "┬"@, "┐"@);
        let bar = table::rule_text(widths, "├"@, "┼"@, "┤"@);
        let low = table::bottom_text(widths);
        let head = "│"@ + table::header_cells(cols, widths, 0);
        let front = seq![top.drop_last(), head, bar.drop_last()];
        let inner = row_lines(rows, cols, widths, replies);
        let back = seq![low.drop_last()];
        let lines = front + inner + back;
        rows_are_lines(rows, cols, widths, 0, replies);
        lines_in_two(front + inner, back, 0);
        lines_in_two(front, inner, 0);
        reveal_with_fuel(lines_of, 4);
        assert(top.drop_last().push('\n') =~= top);
        assert(bar.drop_last().push('\n') =~= bar);
        assert(low.drop_last().push('\n') =~= low);
        assert(lines_of(back, 0) =~= low);
        assert(lines_of(front, 0) =~= top + head.push('\n') + bar);
        assert(t =~= lines_of(lines, 0));
        head_lines_up(cols, widths);
        rule_lines_up(top.drop_last(), '┌', '┬', '┐', widths);
        rule_lines_up(bar.drop_last(), '├', '┼', '┤', widths);
        rule_lines_up(low.drop_last(), '└', '┴', '┘', widths);
        assert forall|i: int| 0 <= i < rows.len() implies table::row_text(
            #[trigger] rows[i],
            cols,
            widths,
            replies,
        ) == Ok::<Seq<char>, StopView>(lines[i + 3].push('\n')) && lines_up(
            lines[i + 3],
            widths,
        ) by {
            row_lines_up(rows[i], cols, widths, replies);
            let one = table::row_text(rows[i], cols, widths, replies)->Ok_0;
            assert(lines[i + 3] == inner[i]);
            assert(one.drop_last().push('\n') =~= one);
        }
        assert forall|i: int| 0 <= i < lines.len() implies lines_up(#[trigger] lines[i], widths) by {
            if 3 <= i < rows.len() + 3 {
                assert(rows[i - 3] == rows[i - 3]);
                assert(lines_up(lines[(i - 3) + 3], widths));
            }
        }
        assert(lines[0] == top.drop_last());
        assert(lines[1] == head);
        assert(lines[2] == bar.drop_last());
        assert(lines[lines.len() - 1] == low.drop_last());
    }
}

/// Each column has a name of its own: the columns are the names that the records
/// use, each once, in the order in which they first come.
pub proof fn columns_are_the_names(rows: Seq<ValueView>)
    ensures
        table::columns_of(rows).no_duplicates(),
        forall|name: Seq<char>| #[trigger]
            table::columns_of(rows).contains(name) <==> exists|i: int, k: int|
                0 <= i < rows.len() && rows[i] is Record && 0 <= k < rows[i]->Record_0.len()
                    && #[trigger] rows[i]->Record_0[k].0 == name,
        rows.len() > 0 ==> {
            let before = table::columns_of(rows.drop_last());
            &&& before.len() <= table::columns_of(rows).len()
            &&& table::columns_of(rows).take(before.len() as int) == before
        },
    decreases rows.len(),
{
    if rows.len() > 0 {
        let init = rows.drop_last();
        columns_are_the_names(init);
        let before = table::columns_of(init);
        let after = table::columns_of(rows);
        let last = rows[rows.len() - 1];
        if let ValueView::Record(fields) = last {
            joining_names(before, fields);
        } else {
            assert(after.take(before.len() as int) =~= before);
        }
        assert forall|name: Seq<char>| #[trigger] after.contains(name) implies exists|
            i: int,
            k: int,
        |
            0 <= i < rows.len() && rows[i] is Record && 0 <= k < rows[i]->Record_0.len()
                && #[trigger] rows[i]->Record_0[k].0 == name by {
            if before.contains(name) {
                let (i, k) = choose|i: int, k: int|
                    0 <= i < init.len() && init[i] is Record && 0 <= k < init[i]->Record_0.len()
                        && #[trigger] init[i]->Record_0[k].0 == name;
                assert(rows[i]->Record_0[k].0 == name);
            } else {
                let k = choose|k: int|
                    0 <= k < last->Record_0.len() && (#[trigger] last->Record_0[k]).0 == name;
                assert(rows[rows.len() - 1]->Record_0[k].0 == name);
            }
        }
        assert forall|name: Seq<char>|
            (exists|i: int, k: int|
                0 <= i < rows.len() && rows[i] is Record && 0 <= k < rows[i]->Record_0.len()
                    && #[trigger] rows[i]->Record_0[k].0 == name) implies #[trigger] after.contains(
            name,
        ) by {
            let (i, k) = choose|i: int, k: int|
                0 <= i < rows.len() && rows[i] is Record && 0 <= k < rows[i]->Record_0.len()
                    && #[trigger] rows[i]->Record_0[k].0 == name;
            if i < init.len() {
                assert(init[i]->Record_0[k].0 == name);
                assert(before.contains(name));
                let j = choose|j: int| 0 <= j < before.len() && before[j] == name;
                assert(after.take(before.len() as int)[j] == name);
            } else {
                assert(last->Record_0[k].0 == name);
            }
        }
    }
}

proof fn joining_names(cols: Seq<Seq<char>>, fields: Seq<(Seq<char>, ValueView)>)
    requires
        cols.no_duplicates(),
    ensures
        ({
            let out = table::with_names(cols, fields);
            &&& out.no_duplicates()
            &&& cols.len() <= out.len()
            &&& out.take(cols.len() as int) == cols
            &&& forall|name: Seq<char>| #[trigger]
                out.contains(name) <==> cols.contains(name) || exists|k: int|
                    0 <= k < fields.len() && (#[trigger] fields[k]).0 == name
        }),
    decreases fields.len(),
{
    let out = table::with_names(cols, fields);
    if fields.len() == 0 {
        assert(out.take(cols.len() as int) =~= cols);
    } else {
        let init = fields.drop_last();
        joining_names(cols, init);
        let before = table::with_names(cols, init);
        let name = fields.last().0;
        assert(fields[fields.len() - 1].0 == name);
        if !before.contains(name) {
            assert(out.take(cols.len() as int) =~= before.take(cols.len() as int));
            assert(out[out.len() - 1] == name);
        }
        assert forall|x: Seq<char>| #[trigger] out.contains(x) <==> cols.contains(x) || exists|
            k: int,
        |
            0 <= k < fields.len() && (#[trigger] fields[k]).0 == x by {
            if out.contains(x) && !cols.contains(x) {
                if before.contains(x) {
                    let k = choose|k: int| 0 <= k < init.len() && (#[trigger] init[k]).0 == x;
                    assert(fields[k].0 == x);
                } else {
                    let j = choose|j: int| 0 <= j < out.len() && out[j] == x;
                    if j < before.len() {
                        assert(before[j] == x);
                    }
                }
            }
            if cols.contains(x) || exists|k: int|
                0 <= k < fields.len() && (#[trigger] fields[k]).0 == x {
                if x != name {
                    if !cols.contains(x) {
                        let k = choose|k: int|
                            0 <= k < fields.len() && (#[trigger] fields[k]).0 == x;
                        assert(init[k].0 == x);
                    }
                    assert(before.contains(x));
                    let j = choose|j: int| 0 <= j < before.len() && before[j] == x;
                    assert(out[j] == x);
                } else if before.contains(x) {
                    assert(out == before);
                }
            }
        }
    }
}

/// Before it is made to fit, a column is as wide as its name and each of its cells
/// need, and no wider.
pub proof fn columns_are_as_wide_as_needed(
    cols: Seq<Seq<char>>,
    rows: Seq<ValueView>,
    replies: ReplySeq,
    ws: Seq<usize>,
    k: int,
)
    requires
        table::natural_widths(cols, rows, 0, replies) == Ok::<Seq<usize>, StopView>(ws),
        0 <= k < cols.len(),
    ensures
        ws.len() == cols.len(),
        width::text_columns(render::stripped(cols[k], false)) <= ws[k],
        forall|i: int|
            0 <= i < rows.len() ==> (table::cell_of(#[trigger] rows[i], cols[k], replies) matches Ok(
                (t, _),
            ) && width::text_columns(t) <= ws[k]),
        ws[k] == width::text_columns(render::stripped(cols[k], false)) || exists|i: int|
            0 <= i < rows.len() && (table::cell_of(#[trigger] rows[i], cols[k], replies) matches Ok(
                (t, _),
            ) && width::text_columns(t) == ws[k]),
{
    naturals(cols, rows, 0, replies);
    assert(cols[0 + k] == cols[k]);
    let least = width::text_columns(table::header_text(cols[k]));
    assert(table::widest_cell(rows, cols[k], 0, least, replies) == Ok::<usize, StopView>(ws[k]));
    widest_of_all(rows, cols[k], 0, least, replies);
}

proof fn widest_of_all(
    rows: Seq<ValueView>,
    col: Seq<char>,
    i: int,
    least: usize,
    replies: ReplySeq,
)
    requires
        0 <= i <= rows.len(),
    ensures
        table::widest_cell(rows, col, i, least, replies) matches Ok(w) ==> {
            &&& least <= w
            &&& forall|j: int|
                i <= j < rows.len() ==> (table::cell_of(#[trigger] rows[j], col, replies) matches Ok(
                    (t, _),
                ) && width::text_columns(t) <= w)
            &&& w == least || exists|j: int|
                i <= j < rows.len() && (table::cell_of(#[trigger] rows[j], col, replies) matches Ok(
                    (t, _),
                ) && width::text_columns(t) == w)
        },
    decreases rows.len() - i,
{
    if i < rows.len() {
        if let Ok((t, _)) = table::cell_of(rows[i], col, replies) {
            let next = table::max2(least, width::text_columns(t));
            widest_of_all(rows, col, i + 1, next, replies);
        }
    }
}

/// A table whose columns fit the pane is left at its natural widths. One that does
/// not loses width where it is widest: what a column keeps is no less than five
/// where it had that, and no column that was cut ends up narrower by more than one
/// than another that is.
pub proof fn shrinking_takes_from_the_widest(widths: Seq<usize>, budget: nat)
    ensures
        table::total(widths) <= budget ==> table::shrunk(widths, budget) == widths,
        ({
            let out = table::shrunk(widths, budget);
            &&& out.len() == widths.len()
            &&& forall|k: int|
                0 <= k < widths.len() ==> #[trigger] out[k] <= widths[k] && (widths[k] <= 5
                    ==> out[k] == widths[k]) && (widths[k] > 5 ==> out[k] >= 5)
            &&& table::total(out) <= budget || forall|k: int|
                0 <= k < widths.len() ==> #[trigger] out[k] <= 5
            &&& table::total(widths) > budget && table::total(out) <= budget ==> table::total(out)
                == budget
            &&& forall|j: int, k: int|
                0 <= j < widths.len() && 0 <= k < widths.len() && out[j] < widths[j]
                    ==> #[trigger] out[k] <= #[trigger] out[j] + 1
        }),
    decreases table::total(widths),
{
    let out = table::shrunk(widths, budget);
    if table::total(widths) > budget && widths.len() > 0 {
        let w = table::widest(widths);
        table::widest_is_in_range(widths);
        if widths[w] > 5 {
            let less = widths.update(w, (widths[w] - 1) as usize);
            table::total_update(widths, w, (widths[w] - 1) as usize);
            shrinking_takes_from_the_widest(less, budget);
            assert(out == table::shrunk(less, budget));
            assert forall|k: int| 0 <= k < widths.len() implies #[trigger] out[k] <= widths[k] && (
            widths[k] <= 5 ==> out[k] == widths[k]) && (widths[k] > 5 ==> out[k] >= 5) by {
                assert(out[k] <= less[k]);
            }
            assert forall|j: int, k: int|
                0 <= j < widths.len() && 0 <= k < widths.len() && out[j]
                    < widths[j] implies #[trigger] out[k] <= #[trigger] out[j] + 1 by {
                assert(out[k] <= less[k]);
                assert(widths[k] <= widths[w]);
            }
        }
    }
}

} // verus!
