//! Box-drawn tables. The pieces are separate so that a table can be painted
//! row by row at widths that were settled on earlier.

use crate::ask::{Replies, ReplySeq, Stop, StopView};
use crate::render;
use crate::text;
use crate::value;
use crate::value::{Value, ValueView};
use crate::width;
use indexmap::IndexSet;
use vstd::prelude::*;

verus! {

broadcast use crate::value::value_view_cases;

/// Minimum column width before we give up shrinking and let the table
/// overflow the pane.
pub const MIN_COL_WIDTH: usize = 5;

#[verifier::external_type_specification]
#[verifier::external_body]
#[verifier::reject_recursive_types(T)]
#[verifier::reject_recursive_types(S)]
pub struct ExIndexSet<T, S>(indexmap::IndexSet<T, S>);

/// The texts in a set, in the order in which they came in.
pub uninterp spec fn set_texts(set: IndexSet<String>) -> Seq<Seq<char>>;

/// The texts after one more came in: each stands where it came first.
pub open spec fn with_text(texts: Seq<Seq<char>>, t: Seq<char>) -> Seq<Seq<char>> {
    if texts.contains(t) {
        texts
    } else {
        texts.push(t)
    }
}

/// `IndexSet::new`: a set without items.
#[verifier::external_body]
fn new_set() -> (r: IndexSet<String>)
    ensures
        set_texts(r) == Seq::<Seq<char>>::empty(),
{
    IndexSet::new()
}

/// `IndexSet::insert`: an item that is there already leaves the set as it is,
/// a new one goes to the end.
#[verifier::external_body]
fn insert_text(set: &mut IndexSet<String>, t: String)
    ensures
        set_texts(*final(set)) == with_text(set_texts(*old(set)), t@),
{
    set.insert(t);
}

/// `IndexSet::into_iter`: the items in their order, collected into a vector.
#[verifier::external_body]
fn into_texts(set: IndexSet<String>) -> (r: Vec<String>)
    ensures
        text::texts(r@) == set_texts(set),
{
    set.into_iter().collect()
}

/// The columns after the fields of a record joined them.
pub open spec fn with_names(
    cols: Seq<Seq<char>>,
    fields: Seq<(Seq<char>, ValueView)>,
) -> Seq<Seq<char>>
    decreases fields.len(),
{
    if fields.len() == 0 {
        cols
    } else {
        with_text(with_names(cols, fields.drop_last()), fields.last().0)
    }
}

/// The ordered union of record keys across rows, first-seen order. Rows that
/// are no records contribute nothing.
pub open spec fn columns_of(rows: Seq<ValueView>) -> Seq<Seq<char>>
    decreases rows.len(),
{
    if rows.len() == 0 {
        Seq::empty()
    } else {
        let before = columns_of(rows.drop_last());
        match rows.last() {
            ValueView::Record(fields) => with_names(before, fields),
            _ => before,
        }
    }
}

/// Text of one row's cell, and whether it is a number.
pub open spec fn cell_of(row: ValueView, col: Seq<char>, replies: ReplySeq) -> Result<
    (Seq<char>, bool),
    StopView,
> {
    match row {
        ValueView::Record(fields) => match value::lookup(fields, col) {
            Some(v) => match render::plain_text(v, replies) {
                Ok(t) => Ok((render::stripped(t, false), v is Int || v is Float)),
                Err(e) => Err(e),
            },
            None => Ok((Seq::empty(), false)),
        },
        _ => Ok((Seq::empty(), false)),
    }
}

pub open spec fn max2(a: usize, b: usize) -> usize {
    if a >= b {
        a
    } else {
        b
    }
}

/// The widest cell of a column from row `i` on, at least `least`.
pub open spec fn widest_cell(
    rows: Seq<ValueView>,
    col: Seq<char>,
    i: int,
    least: usize,
    replies: ReplySeq,
) -> Result<usize, StopView>
    decreases rows.len() - i,
{
    if !(0 <= i < rows.len()) {
        Ok(least)
    } else {
        match cell_of(rows[i], col, replies) {
            Ok((t, _)) => widest_cell(
                rows,
                col,
                i + 1,
                max2(least, width::text_columns(t)),
                replies,
            ),
            Err(e) => Err(e),
        }
    }
}

/// A header as it shows.
pub open spec fn header_text(col: Seq<char>) -> Seq<char> {
    render::stripped(col, false)
}

/// The natural widths of the columns from `i` on: header against cells.
pub open spec fn natural_widths(
    cols: Seq<Seq<char>>,
    rows: Seq<ValueView>,
    i: int,
    replies: ReplySeq,
) -> Result<Seq<usize>, StopView>
    decreases cols.len() - i,
{
    if !(0 <= i < cols.len()) {
        Ok(Seq::empty())
    } else {
        match widest_cell(
            rows,
            cols[i],
            0,
            width::text_columns(header_text(cols[i])),
            replies,
        ) {
            Err(e) => Err(e),
            Ok(w) => match natural_widths(cols, rows, i + 1, replies) {
                Err(e) => Err(e),
                Ok(rest) => Ok(seq![w] + rest),
            },
        }
    }
}

/// The sum of the widths.
pub open spec fn total(widths: Seq<usize>) -> nat
    decreases widths.len(),
{
    if widths.len() == 0 {
        0
    } else {
        total(widths.drop_last()) + widths.last() as nat
    }
}

/// Index of the widest column, the last of several.
pub open spec fn widest(widths: Seq<usize>) -> int
    decreases widths.len(),
{
    if widths.len() <= 1 {
        0
    } else {
        let before = widest(widths.drop_last());
        if widths.last() >= widths[before] {
            widths.len() - 1
        } else {
            before
        }
    }
}

pub proof fn total_update(widths: Seq<usize>, i: int, w: usize)
    requires
        0 <= i < widths.len(),
    ensures
        total(widths.update(i, w)) == total(widths) - widths[i] + w,
    decreases widths.len(),
{
    let after = widths.update(i, w);
    if i == widths.len() - 1 {
        assert(after.drop_last() =~= widths.drop_last());
    } else {
        total_update(widths.drop_last(), i, w);
        assert(after.drop_last() =~= widths.drop_last().update(i, w));
    }
}

pub proof fn widest_is_in_range(widths: Seq<usize>)
    requires
        widths.len() > 0,
    ensures
        0 <= widest(widths) < widths.len(),
        forall|k: int| 0 <= k < widths.len() ==> #[trigger] widths[k] <= widths[widest(widths)],
    decreases widths.len(),
{
    if widths.len() > 1 {
        let init = widths.drop_last();
        widest_is_in_range(init);
        assert forall|k: int| 0 <= k < widths.len() implies #[trigger] widths[k]
            <= widths[widest(widths)] by {
            if k < init.len() {
                assert(init[k] == widths[k]);
            }
        }
    }
}

/// The widest column shrinks by one again and again until the table fits the
/// budget or every column is at the floor.
pub open spec fn shrunk(widths: Seq<usize>, budget: nat) -> Seq<usize>
    decreases total(widths),
{
    if total(widths) <= budget || widths.len() == 0 {
        widths
    } else {
        let k = widest(widths);
        if widths[k] <= MIN_COL_WIDTH {
            widths
        } else {
            proof {
                widest_is_in_range(widths);
                total_update(widths, k, (widths[k] - 1) as usize);
            }
            shrunk(widths.update(k, (widths[k] - 1) as usize), budget)
        }
    }
}

/// Columns left for content: each column takes three for its border and
/// padding, and the table one more.
pub open spec fn budget_of(width: u16, n: nat) -> nat {
    if 3 * n + 1 <= width {
        (width - 3 * n - 1) as nat
    } else {
        0
    }
}

/// Final display widths: natural widths, shrunk to fit.
pub open spec fn settled_widths(
    cols: Seq<Seq<char>>,
    rows: Seq<ValueView>,
    width: u16,
    replies: ReplySeq,
) -> Result<Seq<usize>, StopView> {
    match natural_widths(cols, rows, 0, replies) {
        Err(e) => Err(e),
        Ok(widths) => Ok(shrunk(widths, budget_of(width, cols.len()))),
    }
}

/// Shrinking keeps the number of columns, never widens one, and ends with a
/// table that fits or with every column at the floor or below.
pub proof fn shrunk_fits_or_is_at_the_floor(widths: Seq<usize>, budget: nat)
    ensures
        shrunk(widths, budget).len() == widths.len(),
        forall|k: int|
            0 <= k < widths.len() ==> #[trigger] shrunk(widths, budget)[k] <= widths[k],
        total(shrunk(widths, budget)) <= budget || forall|k: int|
            0 <= k < widths.len() ==> #[trigger] shrunk(widths, budget)[k] <= MIN_COL_WIDTH,
    decreases total(widths),
{
    if total(widths) > budget && widths.len() > 0 {
        let k = widest(widths);
        widest_is_in_range(widths);
        if widths[k] > MIN_COL_WIDTH {
            let less = widths.update(k, (widths[k] - 1) as usize);
            total_update(widths, k, (widths[k] - 1) as usize);
            shrunk_fits_or_is_at_the_floor(less, budget);
            assert forall|j: int| 0 <= j < widths.len() implies #[trigger] shrunk(
                widths,
                budget,
            )[j] <= widths[j] by {
                assert(shrunk(less, budget)[j] <= less[j]);
            }
        }
    }
}

/// How many characters of a text fit into `room` columns, from `i` on, one
/// after the other.
pub open spec fn fitting(s: Seq<char>, i: int, used: usize, room: usize) -> int
    decreases s.len() - i,
{
    if !(0 <= i < s.len()) {
        i
    } else {
        let next = used.saturating_add(width::text_columns(seq![s[i]]));
        if next > room {
            i
        } else {
            fitting(s, i + 1, next, room)
        }
    }
}

/// A text cut to a width, with an ellipsis where something is left out.
pub open spec fn truncated(s: Seq<char>, max: usize) -> Seq<char> {
    if width::text_columns(s) <= max {
        s
    } else {
        s.take(fitting(s, 0, 0, max.saturating_sub(1))).push('…')
    }
}

/// The spaces that fill a column behind a text; none where the text takes up
/// the whole column.
pub open spec fn padding(w: usize, t: Seq<char>) -> Seq<char> {
    text::repeated(' ', w.saturating_sub(width::text_columns(t)) as nat)
}

/// A horizontal rule from column `i` on.
pub open spec fn rule_from(widths: Seq<usize>, i: int, mid: Seq<char>, right: Seq<char>) -> Seq<
    char,
>
    decreases widths.len() - i,
{
    if !(0 <= i < widths.len()) {
        Seq::empty()
    } else {
        text::repeated('─', widths[i].saturating_add(2) as nat) + (if i + 1 == widths.len() {
            right
        } else {
            mid
        }) + rule_from(widths, i + 1, mid, right)
    }
}

pub open spec fn rule_text(
    widths: Seq<usize>,
    left: Seq<char>,
    mid: Seq<char>,
    right: Seq<char>,
) -> Seq<char> {
    (left + rule_from(widths, 0, mid, right)).push('\n')
}

/// The header cells from column `i` on.
pub open spec fn header_cells(cols: Seq<Seq<char>>, widths: Seq<usize>, i: int) -> Seq<char>
    decreases cols.len() - i,
{
    if !(0 <= i < cols.len() && i < widths.len()) {
        Seq::empty()
    } else {
        let t = truncated(header_text(cols[i]), widths[i]);
        " \x1b[1m"@ + t + "\x1b[0m"@ + padding(widths[i], t) + " │"@ + header_cells(
            cols,
            widths,
            i + 1,
        )
    }
}

/// Top border, header row and separator.
pub open spec fn header_block(cols: Seq<Seq<char>>, widths: Seq<usize>) -> Seq<char> {
    (rule_text(widths, "┌"@, "┬"@, "┐"@) + "│"@ + header_cells(cols, widths, 0)).push('\n')
        + rule_text(widths, "├"@, "┼"@, "┤"@)
}

/// A text, with more in front of it.
pub open spec fn prefixed(
    front: Seq<char>,
    rest: Result<Seq<char>, StopView>,
) -> Result<Seq<char>, StopView> {
    match rest {
        Ok(t) => Ok(front + t),
        Err(e) => Err(e),
    }
}

/// One data cell at a width: numbers right-align.
pub open spec fn data_cell(t: Seq<char>, numeric: bool, w: usize) -> Seq<char> {
    let cut = truncated(t, w);
    if numeric {
        " "@ + padding(w, cut) + "\x1b[36m"@ + cut + "\x1b[0m │"@
    } else {
        " "@ + cut + padding(w, cut) + " │"@
    }
}

/// The data cells of a row from column `i` on.
pub open spec fn row_cells(
    row: ValueView,
    cols: Seq<Seq<char>>,
    widths: Seq<usize>,
    i: int,
    replies: ReplySeq,
) -> Result<Seq<char>, StopView>
    decreases cols.len() - i,
{
    if !(0 <= i < cols.len() && i < widths.len()) {
        Ok(Seq::empty())
    } else {
        match cell_of(row, cols[i], replies) {
            Err(e) => Err(e),
            Ok((t, numeric)) => prefixed(
                data_cell(t, numeric, widths[i]),
                row_cells(row, cols, widths, i + 1, replies),
            ),
        }
    }
}

/// One data row.
pub open spec fn row_text(
    row: ValueView,
    cols: Seq<Seq<char>>,
    widths: Seq<usize>,
    replies: ReplySeq,
) -> Result<Seq<char>, StopView> {
    match row_cells(row, cols, widths, 0, replies) {
        Ok(t) => Ok(("│"@ + t).push('\n')),
        Err(e) => Err(e),
    }
}

/// The data rows from `i` on.
pub open spec fn rows_text(
    rows: Seq<ValueView>,
    cols: Seq<Seq<char>>,
    widths: Seq<usize>,
    i: int,
    replies: ReplySeq,
) -> Result<Seq<char>, StopView>
    decreases rows.len() - i,
{
    if !(0 <= i < rows.len()) {
        Ok(Seq::empty())
    } else {
        match row_text(rows[i], cols, widths, replies) {
            Err(e) => Err(e),
            Ok(t) => prefixed(t, rows_text(rows, cols, widths, i + 1, replies)),
        }
    }
}

/// Header and data rows at widths settled on by these rows.
pub open spec fn table_body(rows: Seq<ValueView>, width: u16, replies: ReplySeq) -> Result<
    (Seq<char>, Seq<usize>),
    StopView,
> {
    let cols = columns_of(rows);
    match settled_widths(cols, rows, width, replies) {
        Err(e) => Err(e),
        Ok(widths) => match rows_text(rows, cols, widths, 0, replies) {
            Err(e) => Err(e),
            Ok(t) => Ok((header_block(cols, widths) + t, widths)),
        },
    }
}

pub open spec fn bottom_text(widths: Seq<usize>) -> Seq<char> {
    rule_text(widths, "└"@, "┴"@, "┘"@)
}

/// A whole table; a note where the records have no fields.
pub open spec fn table_text(rows: Seq<ValueView>, width: u16, replies: ReplySeq) -> Result<
    Seq<char>,
    StopView,
> {
    if columns_of(rows).len() == 0 {
        Ok("\x1b[2m("@ + text::numeral(rows.len()) + " empty records)\x1b[0m\n"@)
    } else {
        match table_body(rows, width, replies) {
            Ok((t, widths)) => Ok(t + bottom_text(widths)),
            Err(e) => Err(e),
        }
    }
}

/// The ordered union of record keys across `rows`, first-seen order.
/// Non-`Record` rows contribute nothing (they render as blank cells).
pub(crate) fn table_columns(rows: &Vec<Value>) -> (r: Vec<String>)
    ensures
        text::texts(r@) == columns_of(value::values_view(rows@)),
{
    let ghost all = value::values_view(rows@);
    let mut set = new_set();
    let mut i: usize = 0;
    while i < rows.len()
        invariant
            i <= rows@.len(),
            all == value::values_view(rows@),
            set_texts(set) == columns_of(all.take(i as int)),
        decreases rows@.len() - i,
    {
        proof {
            assert(all.take(i + 1).drop_last() =~= all.take(i as int));
            assert(all.take(i + 1).last() == rows@[i as int]@);
        }
        if let Value::Record(fields) = &rows[i] {
            let ghost before = set_texts(set);
            let mut k: usize = 0;
            while k < fields.len()
                invariant
                    k <= fields@.len(),
                    set_texts(set) == with_names(before, fields@.take(k as int)),
                decreases fields@.len() - k,
            {
                proof {
                    assert(fields@.take(k + 1).drop_last() =~= fields@.take(k as int));
                    assert(fields@.take(k + 1).last() == fields@[k as int]);
                }
                insert_text(&mut set, fields.name(k).clone());
                k = k + 1;
            }
            proof {
                assert(fields@.take(fields@.len() as int) =~= fields@);
            }
        }
        i = i + 1;
    }
    proof {
        assert(all.take(all.len() as int) =~= all);
    }
    into_texts(set)
}

/// Text and numeric-ness of one row's `col` cell (escape-stripped; numbers
/// right-align downstream).
fn cell(row: &Value, col: &str, replies: &Replies) -> (r: Result<(String, bool), Stop>)
    ensures
        match cell_of(row@, col@, replies@) {
            Ok((t, numeric)) => r matches Ok(x) && x.0@ == t && x.1 == numeric,
            Err(e) => r matches Err(x) && x@ == e,
        },
{
    match row {
        Value::Record(fields) => match fields.get(col) {
            Some(v) => match render::plain(v, replies) {
                Ok(t) => {
                    let numeric = match v {
                        Value::Int(_) => true,
                        Value::Float(_) => true,
                        _ => false,
                    };
                    Ok((render::cell_text(t.as_str()), numeric))
                },
                Err(e) => Err(e),
            },
            None => Ok((String::new(), false)),
        },
        _ => Ok((String::new(), false)),
    }
}

fn truncate(s: &str, max: usize) -> (r: String)
    ensures
        r@ == truncated(s@, max),
{
    if width::text_width(s) <= max {
        return s.to_owned();
    }
    let chars = text::to_chars(s);
    let room: usize = max.saturating_sub(1);
    let mut used: usize = 0;
    let mut i: usize = 0;
    while i < chars.len()
        invariant
            i <= chars@.len(),
            chars@ == s@,
            fitting(s@, 0, 0, room) == fitting(s@, i as int, used, room),
        ensures
            i <= chars@.len(),
            fitting(s@, 0, 0, room) == i,
        decreases chars@.len() - i,
    {
        let mut one = String::new();
        one.push(chars[i]);
        proof {
            assert(one@ =~= seq![s@[i as int]]);
        }
        let next: usize = used.saturating_add(width::text_width(one.as_str()));
        if next > room {
            break ;
        }
        used = next;
        i = i + 1;
    }
    let mut out = text::slice_text(&chars, 0, i);
    proof {
        assert(s@.take(i as int) =~= s@.subrange(0, i as int));
    }
    out.push('…');
    out
}

pub(crate) fn push_padding(out: &mut String, w: usize, t: &str)
    ensures
        final(out)@ == old(out)@ + padding(w, t@),
{
    let pad = text::repeat_char(' ', w.saturating_sub(width::text_width(t)));
    out.append(pad.as_str());
}

fn rule(widths: &Vec<usize>, left: &str, mid: &str, right: &str) -> (r: String)
    ensures
        r@ == rule_text(widths@, left@, mid@, right@),
{
    let ghost goal = left@ + rule_from(widths@, 0, mid@, right@);
    let mut s = left.to_owned();
    let mut i: usize = 0;
    while i < widths.len()
        invariant
            i <= widths@.len(),
            goal == s@ + rule_from(widths@, i as int, mid@, right@),
        decreases widths@.len() - i,
    {
        let ghost before = s@;
        let dashes = text::repeat_char('─', widths[i].saturating_add(2));
        s.append(dashes.as_str());
        let n: usize = widths.len();
        s.append(if i + 1 == n { right } else { mid });
        proof {
            let rest = rule_from(widths@, i + 1, mid@, right@);
            let end = if i + 1 == widths@.len() {
                right@
            } else {
                mid@
            };
            assert(before + (dashes@ + end + rest) =~= s@ + rest);
        }
        i = i + 1;
    }
    proof {
        assert(s@ + Seq::<char>::empty() =~= s@);
    }
    s.push('\n');
    s
}

/// The widest cell of a column.
fn column_width(rows: &Vec<Value>, col: &String, replies: &Replies) -> (r: Result<usize, Stop>)
    ensures
        match widest_cell(
            value::values_view(rows@),
            col@,
            0,
            width::text_columns(header_text(col@)),
            replies@,
        ) {
            Ok(w) => r == Ok::<usize, Stop>(w),
            Err(e) => r matches Err(x) && x@ == e,
        },
{
    let ghost all = value::values_view(rows@);
    let header = render::cell_text(col.as_str());
    let start: usize = width::text_width(header.as_str());
    let mut w: usize = start;
    let mut i: usize = 0;
    while i < rows.len()
        invariant
            i <= rows@.len(),
            all == value::values_view(rows@),
            start == width::text_columns(header_text(col@)),
            widest_cell(all, col@, 0, start, replies@) == widest_cell(
                all,
                col@,
                i as int,
                w,
                replies@,
            ),
        decreases rows@.len() - i,
    {
        proof {
            assert(all[i as int] == rows@[i as int]@);
        }
        match cell(&rows[i], col.as_str(), replies) {
            Ok((t, _)) => {
                let cw: usize = width::text_width(t.as_str());
                if cw > w {
                    w = cw;
                }
            },
            Err(e) => {
                return Err(e);
            },
        }
        i = i + 1;
    }
    Ok(w)
}

/// Is the sum of the widths greater than the budget?
fn exceeds(widths: &Vec<usize>, budget: usize) -> (r: bool)
    ensures
        r == (total(widths@) > budget),
{
    let mut left: usize = budget;
    let mut i: usize = 0;
    while i < widths.len()
        invariant
            i <= widths@.len(),
            left + total(widths@.take(i as int)) == budget,
        decreases widths@.len() - i,
    {
        proof {
            assert(widths@.take(i + 1).drop_last() =~= widths@.take(i as int));
            total_monotone(widths@, i + 1);
        }
        if widths[i] > left {
            return true;
        }
        left = left - widths[i];
        i = i + 1;
    }
    proof {
        assert(widths@.take(widths@.len() as int) =~= widths@);
    }
    false
}

proof fn total_monotone(widths: Seq<usize>, i: int)
    requires
        0 <= i <= widths.len(),
    ensures
        total(widths.take(i)) <= total(widths),
    decreases widths.len(),
{
    if i < widths.len() {
        total_monotone(widths.drop_last(), i);
        assert(widths.drop_last().take(i) =~= widths.take(i));
    } else {
        assert(widths.take(i) =~= widths);
    }
}

fn find_widest(widths: &Vec<usize>) -> (r: usize)
    requires
        widths@.len() > 0,
    ensures
        r == widest(widths@),
        r < widths@.len(),
{
    let mut best: usize = 0;
    let mut i: usize = 1;
    proof {
        assert(widths@.take(1).len() == 1);
    }
    while i < widths.len()
        invariant
            1 <= i <= widths@.len(),
            best < i,
            best == widest(widths@.take(i as int)),
        decreases widths@.len() - i,
    {
        proof {
            assert(widths@.take(i + 1).drop_last() =~= widths@.take(i as int));
        }
        if widths[i] >= widths[best] {
            best = i;
        }
        i = i + 1;
    }
    proof {
        assert(widths@.take(widths@.len() as int) =~= widths@);
    }
    best
}

/// Final display widths for `cols` given these sample rows: natural widths
/// (header vs cells), shrunk to fit `width` (with a `MIN_COL_WIDTH` floor).
/// Called once against the probe rows so a streamed row later reuses the
/// exact same widths a full-list render would have produced.
pub(crate) fn column_widths(
    cols: &Vec<String>,
    rows: &Vec<Value>,
    width: u16,
    replies: &Replies,
) -> (r: Result<Vec<usize>, Stop>)
    ensures
        match settled_widths(
            text::texts(cols@),
            value::values_view(rows@),
            width,
            replies@,
        ) {
            Ok(ws) => r matches Ok(x) && x@ == ws,
            Err(e) => r matches Err(x) && x@ == e,
        },
{
    let ghost names = text::texts(cols@);
    let ghost all = value::values_view(rows@);
    let ghost goal = natural_widths(names, all, 0, replies@);
    let mut widths: Vec<usize> = Vec::new();
    let mut i: usize = 0;
    proof {
        match goal {
            Ok(ws) => {
                assert(widths@ + ws =~= ws);
            },
            Err(_) => {},
        }
    }
    while i < cols.len()
        invariant
            i <= cols@.len(),
            names == text::texts(cols@),
            all == value::values_view(rows@),
            goal == natural_widths(names, all, 0, replies@),
            match natural_widths(names, all, i as int, replies@) {
                Ok(rest) => goal == Ok::<Seq<usize>, StopView>(widths@ + rest),
                Err(e) => goal == Err::<Seq<usize>, StopView>(e),
            },
        decreases cols@.len() - i,
    {
        proof {
            assert(names[i as int] == cols@[i as int]@);
        }
        match column_width(rows, &cols[i], replies) {
            Ok(w) => {
                let ghost before = widths@;
                widths.push(w);
                proof {
                    match natural_widths(names, all, i + 1, replies@) {
                        Ok(rest) => {
                            assert(before + (seq![w] + rest) =~= widths@ + rest);
                        },
                        Err(_) => {},
                    }
                }
            },
            Err(e) => {
                return Err(e);
            },
        }
        i = i + 1;
    }
    proof {
        assert(widths@ + Seq::<usize>::empty() =~= widths@);
    }
    let n: usize = cols.len();
    let full: usize = width as usize;
    let budget: usize = if n <= 21844 && 3 * n + 1 <= full { full - 3 * n - 1 } else { 0 };
    let ghost natural = widths@;
    while exceeds(&widths, budget)
        invariant
            shrunk(natural, budget as nat) == shrunk(widths@, budget as nat),
        ensures
            shrunk(natural, budget as nat) == widths@,
        decreases total(widths@),
    {
        if widths.len() == 0 {
            break ;
        }
        let k: usize = find_widest(&widths);
        let w: usize = widths[k];
        if w <= MIN_COL_WIDTH {
            break ;
        }
        proof {
            total_update(widths@, k as int, (w - 1) as usize);
        }
        widths.set(k, w - 1);
    }
    Ok(widths)
}

/// Top border + header row + separator, at fixed `widths`.
pub(crate) fn table_header(cols: &Vec<String>, widths: &Vec<usize>) -> (r: String)
    ensures
        r@ == header_block(text::texts(cols@), widths@),
{
    let ghost names = text::texts(cols@);
    let mut out = rule(widths, "┌", "┬", "┐");
    out.append("│");
    let ghost goal = out@ + header_cells(names, widths@, 0);
    let mut i: usize = 0;
    while i < cols.len() && i < widths.len()
        invariant
            i <= cols@.len(),
            names == text::texts(cols@),
            goal == out@ + header_cells(names, widths@, i as int),
        decreases cols@.len() - i,
    {
        proof {
            assert(names[i as int] == cols@[i as int]@);
        }
        let ghost before = out@;
        let header = render::cell_text(cols[i].as_str());
        let t = truncate(header.as_str(), widths[i]);
        out.append(" \x1b[1m");
        out.append(t.as_str());
        out.append("\x1b[0m");
        push_padding(&mut out, widths[i], t.as_str());
        out.append(" │");
        proof {
            let rest = header_cells(names, widths@, i + 1);
            assert(before + (" \x1b[1m"@ + t@ + "\x1b[0m"@ + padding(widths@[i as int], t@) + " │"@
                + rest) =~= out@ + rest);
        }
        i = i + 1;
    }
    proof {
        assert(out@ + Seq::<char>::empty() =~= out@);
    }
    out.push('\n');
    out.append(rule(widths, "├", "┼", "┤").as_str());
    out
}

/// One data row at fixed `widths`: over-wide cells truncate with `…`,
/// numbers right-align.
pub(crate) fn table_row(
    row: &Value,
    cols: &Vec<String>,
    widths: &Vec<usize>,
    replies: &Replies,
) -> (r: Result<String, Stop>)
    ensures
        render::text_result(r) == row_text(row@, text::texts(cols@), widths@, replies@),
{
    let ghost names = text::texts(cols@);
    let ghost goal = row_cells(row@, names, widths@, 0, replies@);
    let mut out = String::new();
    let mut i: usize = 0;
    proof {
        match goal {
            Ok(t) => {
                assert(out@ + t =~= t);
            },
            Err(_) => {},
        }
    }
    while i < cols.len() && i < widths.len()
        invariant
            i <= cols@.len(),
            names == text::texts(cols@),
            goal == row_cells(row@, names, widths@, 0, replies@),
            goal == prefixed(out@, row_cells(row@, names, widths@, i as int, replies@)),
        decreases cols@.len() - i,
    {
        proof {
            assert(names[i as int] == cols@[i as int]@);
        }
        let ghost before = out@;
        match cell(row, cols[i].as_str(), replies) {
            Err(e) => {
                return Err(e);
            },
            Ok((full, numeric)) => {
                let t = truncate(full.as_str(), widths[i]);
                out.append(" ");
                if numeric {
                    push_padding(&mut out, widths[i], t.as_str());
                    out.append("\x1b[36m");
                    out.append(t.as_str());
                    out.append("\x1b[0m │");
                } else {
                    out.append(t.as_str());
                    push_padding(&mut out, widths[i], t.as_str());
                    out.append(" │");
                }
                proof {
                    let one = data_cell(full@, numeric, widths@[i as int]);
                    assert(out@ =~= before + one);
                    match row_cells(row@, names, widths@, i + 1, replies@) {
                        Ok(rest) => {
                            assert(before + (one + rest) =~= out@ + rest);
                        },
                        Err(_) => {},
                    }
                }
            },
        }
        i = i + 1;
    }
    proof {
        assert(out@ + Seq::<char>::empty() =~= out@);
    }
    let mut line = "│".to_owned();
    line.append(out.as_str());
    line.push('\n');
    Ok(line)
}

/// Bottom border at fixed `widths`.
pub(crate) fn table_bottom(widths: &Vec<usize>) -> (r: String)
    ensures
        r@ == bottom_text(widths@),
{
    rule(widths, "└", "┴", "┘")
}

/// The data rows at fixed `widths`.
pub(crate) fn table_rows(
    rows: &Vec<Value>,
    cols: &Vec<String>,
    widths: &Vec<usize>,
    replies: &Replies,
) -> (r: Result<String, Stop>)
    ensures
        render::text_result(r) == rows_text(
            value::values_view(rows@),
            text::texts(cols@),
            widths@,
            0,
            replies@,
        ),
{
    let ghost all = value::values_view(rows@);
    let ghost names = text::texts(cols@);
    let ghost goal = rows_text(all, names, widths@, 0, replies@);
    let mut out = String::new();
    let mut i: usize = 0;
    proof {
        match goal {
            Ok(t) => {
                assert(out@ + t =~= t);
            },
            Err(_) => {},
        }
    }
    while i < rows.len()
        invariant
            i <= rows@.len(),
            all == value::values_view(rows@),
            names == text::texts(cols@),
            goal == rows_text(all, names, widths@, 0, replies@),
            goal == prefixed(out@, rows_text(all, names, widths@, i as int, replies@)),
        decreases rows@.len() - i,
    {
        proof {
            assert(all[i as int] == rows@[i as int]@);
        }
        let ghost before = out@;
        match table_row(&rows[i], cols, widths, replies) {
            Err(e) => {
                return Err(e);
            },
            Ok(line) => {
                out.append(line.as_str());
                proof {
                    match rows_text(all, names, widths@, i + 1, replies@) {
                        Ok(rest) => {
                            assert(before + (line@ + rest) =~= out@ + rest);
                        },
                        Err(_) => {},
                    }
                }
            },
        }
        i = i + 1;
    }
    proof {
        assert(out@ + Seq::<char>::empty() =~= out@);
    }
    Ok(out)
}

/// Box-drawn table for a `List` of `Record`s. Column set is the union of
/// keys in first-seen order. The widest column shrinks (with `…`) to fit the
/// width budget; numbers right-align; header is bold.
pub(crate) fn render_table(rows: &Vec<Value>, width: u16, replies: &Replies) -> (r: Result<
    String,
    Stop,
>)
    ensures
        render::text_result(r) == table_text(value::values_view(rows@), width, replies@),
{
    let cols = table_columns(rows);
    if cols.len() == 0 {
        let mut out = "\x1b[2m(".to_owned();
        text::push_number(&mut out, rows.len() as u64);
        out.append(" empty records)\x1b[0m\n");
        return Ok(out);
    }
    let widths = match column_widths(&cols, rows, width, replies) {
        Ok(ws) => ws,
        Err(e) => {
            return Err(e);
        },
    };
    let mut out = table_header(&cols, &widths);
    match table_rows(rows, &cols, &widths, replies) {
        Ok(body) => {
            out.append(body.as_str());
        },
        Err(e) => {
            return Err(e);
        },
    }
    out.append(table_bottom(&widths).as_str());
    Ok(out)
}

} // verus!
