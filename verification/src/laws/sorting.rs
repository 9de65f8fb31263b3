//! What `sort-by` promises: the same rows, in the order of a column.

use crate::ask::{ReplySeq, StopView};
use crate::builtins::collect;
use crate::builtins::sort;
use crate::builtins::sort::Row;
use crate::builtins::Builtin;
use crate::callable;
use crate::callable::SelectorView;
use crate::error::Span;
use crate::float;
use crate::laws::commands;
use crate::laws::evaluation;
use crate::registry::DataView;
use crate::render::table;
use crate::signature::BoundCallView;
use crate::text;
use crate::value;
use crate::value::ValueView;
use vstd::prelude::*;

verus! {

/// A name that selects a column: nothing in it that means more to a selector.
pub open spec fn column_name(s: Seq<char>) -> bool {
    &&& s.len() > 0
    &&& s[0] != '@'
    &&& forall|i: int|
        0 <= i < s.len() ==> !text::whitespace(#[trigger] s[i]) && s[i] != '.' && s[i] != '='
}

proof fn trimmed_already(s: Seq<char>)
    requires
        column_name(s),
    ensures
        text::trimmed(s) == s,
{
    assert(!text::whitespace(s[0]));
    assert(!text::whitespace(s[s.len() - 1]));
    assert(text::trimmed_start(s) == s);
}

proof fn runs_to_the_end(s: Seq<char>, i: int)
    requires
        0 <= i <= s.len(),
        forall|k: int| 0 <= k < s.len() ==> #[trigger] s[k] != '.',
    ensures
        text::run_without(s, '.', i) == s.len(),
    decreases s.len() - i,
{
    if i < s.len() {
        runs_to_the_end(s, i + 1);
    }
}

/// The name of a column, written as a selector, selects the field of that name.
pub proof fn names_select_fields(s: Seq<char>, replies: ReplySeq)
    requires
        column_name(s),
    ensures
        callable::resolved(s, replies) == Ok::<SelectorView, callable::FaultView>(
            SelectorView::Field(seq![s]),
        ),
{
    trimmed_already(s);
    runs_to_the_end(s, 0);
    reveal_strlit("=>");
    assert(!text::contains(s, "=>"@)) by {
        if text::contains(s, "=>"@) {
            let j = choose|j: int| #[trigger] text::matches_at(s, j, "=>"@);
            assert(s.subrange(j, j + 2)[0] == "=>"@[0]);
            assert(s[j] == '=');
        }
    }
    assert(!callable::has_space(s));
    assert(s.subrange(0, s.len() as int) =~= s);
    assert(text::pieces(s, '.', 0) =~= seq![s]);
}

/// The key of a row under a column: its field, or null.
pub open spec fn key_is(row: ValueView, col: Seq<char>, key: ValueView) -> bool {
    match row {
        ValueView::Record(fields) => commands::is_field(key, fields, col),
        _ => key is Null,
    }
}

/// Rows that use no name twice.
pub open spec fn proper(row: ValueView) -> bool {
    row matches ValueView::Record(fields) ==> value::names_distinct(fields)
}

proof fn walking_one_step(row: ValueView, col: Seq<char>, key: ValueView)
    requires
        proper(row),
    ensures
        key_is(row, col, key) <==> callable::walked(row, seq![col]) == key,
{
    assert(seq![col].drop_first() =~= Seq::<Seq<char>>::empty());
    assert(seq![col][0] == col);
    reveal_with_fuel(callable::walked, 2);
    match row {
        ValueView::Record(fields) => {
            value::position_is_first(fields, col);
            match value::position(fields, col) {
                Some(p) => {
                    let v = fields[p].1;
                    assert(value::lookup(fields, col) == Some(v));
                    assert(callable::walked(v, seq![col].drop_first()) == v);
                    assert(callable::walked(row, seq![col]) == v);
                    assert(fields[p] == (col, v));
                    assert(fields[p].0 == col);
                    if exists|i: int| 0 <= i < fields.len() && fields[i] == (col, key) {
                        let i = choose|i: int| 0 <= i < fields.len() && fields[i] == (col, key);
                        if i != p {
                            assert(fields[i].0 == fields[p].0);
                        }
                    }
                },
                None => {
                    assert(callable::walked(row, seq![col]) == ValueView::Null);
                    if exists|i: int| 0 <= i < fields.len() && fields[i] == (col, key) {
                        let i = choose|i: int| 0 <= i < fields.len() && fields[i] == (col, key);
                        assert(fields[i].0 == col);
                    }
                },
            }
        },
        _ => {
            assert(callable::walked(row, seq![col]) == ValueView::Null);
        },
    }
}

/// Does one key go before another? Numbers go by their value, whole or not, and what is
/// not a number behind them; texts by their characters, false before true. Numbers go
/// before texts, texts before bools, bools before bytes, bytes before lists and lists
/// before records.
pub open spec fn goes_before(a: ValueView, b: ValueView) -> bool {
    match (a, b) {
        (ValueView::Int(x), ValueView::Int(y)) => x < y,
        (ValueView::Float(x), ValueView::Float(y)) => !x.nan() && (y.nan() || x.value()
            < y.value()),
        (ValueView::Str(x), ValueView::Str(y)) => evaluation::comes_before(x, y),
        (ValueView::Bool(x), ValueView::Bool(y)) => !x && y,
        (ValueView::Int(_), ValueView::Str(_)) => true,
        (ValueView::Int(_), ValueView::Bool(_)) => true,
        (ValueView::Float(_), ValueView::Str(_)) => true,
        (ValueView::Float(_), ValueView::Bool(_)) => true,
        (ValueView::Int(x), ValueView::Float(y)) => y.nan() || value::int_of(x)
            * float::unit_scale() < y.value(),
        (ValueView::Float(x), ValueView::Int(y)) => !x.nan() && x.value() < value::int_of(y)
            * float::unit_scale(),
        (ValueView::Str(_), ValueView::Bool(_)) => true,
        (_, ValueView::Bytes(_)) => a is Int || a is Float || a is Str || a is Bool,
        (_, ValueView::List(_)) => !(a is List || a is Record || a is Null),
        (_, ValueView::Record(_)) => !(a is Record || a is Null),
        _ => false,
    }
}

proof fn keys_follow(a: ValueView, b: ValueView, reverse: bool)
    requires
        !sort::key_after(a, b, reverse),
    ensures
        !reverse ==> !goes_before(b, a),
        reverse && !(a is Null) && !(b is Null) ==> !goes_before(a, b),
        a is Null ==> b is Null,
{
    if let (ValueView::Str(x), ValueView::Str(y)) = (a, b) {
        evaluation::texts_are_ordered_by_their_first_difference(x, y);
    }
    if let (ValueView::Int(x), ValueView::Int(y)) = (a, b) {
        scaling(value::int_of(x), value::int_of(y));
    }
}

proof fn scaling(x: int, y: int)
    ensures
        x < y ==> x * float::unit_scale() < y * float::unit_scale(),
        y < x ==> y * float::unit_scale() < x * float::unit_scale(),
{
    let s = float::unit_scale();
    scale_is_positive();
    assert(x < y ==> x * s < y * s) by (nonlinear_arith)
        requires
            s > 0,
    ;
    assert(y < x ==> y * s < x * s) by (nonlinear_arith)
        requires
            s > 0,
    ;
}

proof fn scale_is_positive()
    ensures
        float::unit_scale() > 0,
{
    float::doubled_positive(1074);
}

proof fn pairs_are(
    col: Seq<char>,
    rows: Seq<ValueView>,
    span: Span,
    step: u64,
    replies: ReplySeq,
)
    ensures
        sort::keyed(SelectorView::Field(seq![col]), rows, span, step, replies) matches Ok(pairs)
            && pairs.len() == rows.len() && forall|i: int|
            0 <= i < rows.len() ==> #[trigger] pairs[i] == (
                callable::walked(rows[i], seq![col]),
                rows[i],
            ),
    decreases rows.len(),
{
    if rows.len() > 0 {
        pairs_are(col, rows.drop_last(), span, step, replies);
        let sel = SelectorView::Field(seq![col]);
        let before = sort::keyed(sel, rows.drop_last(), span, step, replies)->Ok_0;
        let pairs = sort::keyed(sel, rows, span, step, replies)->Ok_0;
        assert forall|i: int| 0 <= i < rows.len() implies #[trigger] pairs[i] == (
            callable::walked(rows[i], seq![col]),
            rows[i],
        ) by {
            if i < rows.len() - 1 {
                assert(pairs[i] == before[i]);
                assert(rows.drop_last()[i] == rows[i]);
            }
        }
    }
}

/// The rows of a column's value.
pub open spec fn with_key(col: Seq<char>, key: ValueView) -> spec_fn(ValueView) -> bool {
    |row: ValueView| callable::walked(row, seq![col]) == key
}

spec fn keys_fit(pairs: Seq<Row>, col: Seq<char>) -> bool {
    forall|i: int|
        0 <= i < pairs.len() ==> (#[trigger] pairs[i]).0 == callable::walked(
            pairs[i].1,
            seq![col],
        )
}

proof fn placing_moves_one(s: Seq<Row>, x: Row, col: Seq<char>, key: ValueView, reverse: bool)
    requires
        keys_fit(s, col),
        x.0 == callable::walked(x.1, seq![col]),
    ensures
        ({
            let out = sort::bare_rows(sort::placed(s, x, reverse));
            let came = sort::bare_rows(s.push(x));
            &&& keys_fit(sort::placed(s, x, reverse), col)
            &&& out.to_multiset() == came.to_multiset()
            &&& out.filter(with_key(col, key)) == came.filter(with_key(col, key))
            &&& out.len() == came.len()
        }),
    decreases s.len(),
{
    broadcast use vstd::seq_lib::group_to_multiset_ensures;

    let p = with_key(col, key);
    let placed = sort::placed(s, x, reverse);
    let out = sort::bare_rows(placed);
    let came = sort::bare_rows(s.push(x));
    if s.len() > 0 && sort::key_after(s.last().0, x.0, reverse) {
        let init = s.drop_last();
        let last = s.last();
        assert(s[s.len() - 1] == last);
        assert(keys_fit(init, col)) by {
            assert forall|i: int| 0 <= i < init.len() implies (#[trigger] init[i]).0
                == callable::walked(init[i].1, seq![col]) by {
                assert(s[i] == init[i]);
            }
        }
        placing_moves_one(init, x, col, key, reverse);
        let inner = sort::placed(init, x, reverse);
        assert(keys_fit(placed, col)) by {
            assert forall|i: int| 0 <= i < placed.len() implies (#[trigger] placed[i]).0
                == callable::walked(placed[i].1, seq![col]) by {
                if i < inner.len() {
                    assert(placed[i] == inner[i]);
                }
            }
        }
        let a = sort::bare_rows(inner);
        let b = sort::bare_rows(init);
        assert(out =~= a.push(last.1));
        assert(sort::bare_rows(init.push(x)) =~= b.push(x.1));
        assert(came =~= b.push(last.1).push(x.1));
        assert(out.to_multiset() =~= came.to_multiset());
        filter_last(a, last.1, p);
        filter_last(b, x.1, p);
        filter_last(b, last.1, p);
        filter_last(b.push(last.1), x.1, p);
        if p(last.1) && p(x.1) {
            sort::key_after_is_an_order(key, key, key, reverse);
        }
    } else {
        assert(keys_fit(placed, col)) by {
            assert forall|i: int| 0 <= i < placed.len() implies (#[trigger] placed[i]).0
                == callable::walked(placed[i].1, seq![col]) by {
                if i < s.len() {
                    assert(placed[i] == s[i]);
                }
            }
        }
    }
}

proof fn filter_last(s: Seq<ValueView>, x: ValueView, p: spec_fn(ValueView) -> bool)
    ensures
        s.push(x).filter(p) == if p(x) {
            s.filter(p).push(x)
        } else {
            s.filter(p)
        },
{
    reveal(Seq::filter);
    assert(s.push(x).drop_last() =~= s);
}

proof fn sorting_moves_rows(pairs: Seq<Row>, col: Seq<char>, key: ValueView, reverse: bool)
    requires
        keys_fit(pairs, col),
    ensures
        ({
            let out = sort::bare_rows(sort::sorted_rows(pairs, reverse));
            let came = sort::bare_rows(pairs);
            &&& keys_fit(sort::sorted_rows(pairs, reverse), col)
            &&& out.to_multiset() == came.to_multiset()
            &&& out.filter(with_key(col, key)) == came.filter(with_key(col, key))
            &&& out.len() == came.len()
        }),
    decreases pairs.len(),
{
    broadcast use vstd::seq_lib::group_to_multiset_ensures;

    if pairs.len() > 0 {
        let init = pairs.drop_last();
        let x = pairs.last();
        assert(pairs[pairs.len() - 1] == x);
        assert(keys_fit(init, col)) by {
            assert forall|i: int| 0 <= i < init.len() implies (#[trigger] init[i]).0
                == callable::walked(init[i].1, seq![col]) by {
                assert(pairs[i] == init[i]);
            }
        }
        sorting_moves_rows(init, col, key, reverse);
        let s = sort::sorted_rows(init, reverse);
        placing_moves_one(s, x, col, key, reverse);
        let p = with_key(col, key);
        let a = sort::bare_rows(s);
        let b = sort::bare_rows(init);
        assert(sort::bare_rows(s.push(x)) =~= a.push(x.1));
        assert(sort::bare_rows(pairs) =~= b.push(x.1));
        filter_last(a, x.1, p);
        filter_last(b, x.1, p);
        assert(sort::bare_rows(pairs).to_multiset() =~= sort::bare_rows(
            sort::sorted_rows(pairs, reverse),
        ).to_multiset());
    } else {
        assert(sort::sorted_rows(pairs, reverse) =~= pairs);
    }
}

/// A call that names a column and nothing else but whether to go backward.
pub open spec fn asks_for(call: BoundCallView, col: Seq<char>, reverse: bool) -> bool {
    &&& call.positionals == seq![ValueView::Str(col)]
    &&& call.closures.len() == 0
    &&& call.flags == if reverse {
        seq![("reverse"@, ValueView::Bool(true))]
    } else {
        Seq::empty()
    }
}

/// `sort-by` gives the same rows in the order of a column: no row goes before one
/// whose key goes before its own, or after it where the order is reversed. Rows
/// without a key come last either way, and rows with the same key stay in the order
/// they came in. A column that no row has is refused.
pub proof fn sorting_orders_the_rows(
    call: BoundCallView,
    rows: Seq<ValueView>,
    col: Seq<char>,
    reverse: bool,
    key: ValueView,
    width: u16,
    step: u64,
    replies: ReplySeq,
)
    requires
        column_name(col),
        asks_for(call, col, reverse),
        forall|i: int| 0 <= i < rows.len() ==> proper(#[trigger] rows[i]),
    ensures
        ({
            let r = commands::gives(
                "sort-by"@,
                call,
                commands::list(rows),
                width,
                step,
                replies,
            );
            &&& r is Ok <==> rows.len() == 0 || exists|i: int|
                0 <= i < rows.len() && (#[trigger] rows[i] matches ValueView::Record(fields)
                    && exists|k: int| 0 <= k < fields.len() && (#[trigger] fields[k]).0 == col)
            &&& r matches Ok(d) ==> {
                &&& d matches DataView::Value(ValueView::List(out))
                &&& out.to_multiset() == rows.to_multiset()
                &&& out.filter(with_key(col, key)) == rows.filter(with_key(col, key))
                &&& forall|i: int, j: int, a: ValueView, b: ValueView|
                    #![trigger key_is(out[i], col, a), key_is(out[j], col, b)]
                    0 <= i < j < out.len() && key_is(out[i], col, a) && key_is(out[j], col, b)
                        ==> {
                        &&& !reverse ==> !goes_before(b, a)
                        &&& reverse && !(a is Null) && !(b is Null) ==> !goes_before(a, b)
                        &&& a is Null ==> b is Null
                    }
            }
        }),
{
    let input = commands::list(rows);
    commands::found(Builtin::SortBy, call, input, width, step, replies);
    reveal(collect::ran);
    value::position_is_first(call.flags, "on"@);
    value::position_is_first(call.flags, "reverse"@);
    reveal_strlit("on");
    reveal_strlit("reverse");
    assert("on"@.len() != "reverse"@.len());
    if reverse {
        assert(call.flags[0] == ("reverse"@, ValueView::Bool(true)));
    }
    assert(call.positionals[0] == ValueView::Str(col));
    names_select_fields(col, replies);
    let sel = SelectorView::Field(seq![col]);
    assert(sort::sort_choice(call, replies) == Ok::<SelectorView, StopView>(sel));
    assert(callable::head_of(sel) == Some(col));
    crate::laws::tables::columns_are_the_names(rows);
    let seen = table::columns_of(rows);
    let some = exists|i: int|
        0 <= i < rows.len() && (#[trigger] rows[i] matches ValueView::Record(fields) && exists|
            k: int,
        |
            0 <= k < fields.len() && (#[trigger] fields[k]).0 == col);
    assert(seen.contains(col) <==> some) by {
        if seen.contains(col) {
            let (i, k) = choose|i: int, k: int|
                0 <= i < rows.len() && rows[i] is Record && 0 <= k < rows[i]->Record_0.len()
                    && #[trigger] rows[i]->Record_0[k].0 == col;
            assert(rows[i]->Record_0[k].0 == col);
        }
        if some {
            let i = choose|i: int|
                0 <= i < rows.len() && (#[trigger] rows[i] matches ValueView::Record(fields)
                    && exists|k: int| 0 <= k < fields.len() && (#[trigger] fields[k]).0 == col);
            let fields = rows[i]->Record_0;
            let k = choose|k: int| 0 <= k < fields.len() && (#[trigger] fields[k]).0 == col;
            assert(rows[i]->Record_0[k].0 == col);
        }
    }
    pairs_are(col, rows, call.head_span, step, replies);
    let pairs = sort::keyed(sel, rows, call.head_span, step, replies)->Ok_0;
    assert(keys_fit(pairs, col));
    assert(sort::bare_rows(pairs) =~= rows);
    sorting_moves_rows(pairs, col, key, reverse);
    sort::sorting_is_a_stable_sort(pairs, key, reverse);
    let sorted = sort::sorted_rows(pairs, reverse);
    let out = sort::bare_rows(sorted);
    assert forall|i: int, j: int, a: ValueView, b: ValueView|
        #![trigger key_is(out[i], col, a), key_is(out[j], col, b)]
        0 <= i < j < out.len() && key_is(out[i], col, a) && key_is(out[j], col, b) implies {
        &&& !reverse ==> !goes_before(b, a)
        &&& reverse && !(a is Null) && !(b is Null) ==> !goes_before(a, b)
        &&& a is Null ==> b is Null
    } by {
        rows_stay(rows, out, i);
        rows_stay(rows, out, j);
        walking_one_step(out[i], col, a);
        walking_one_step(out[j], col, b);
        assert(out[i] == sorted[i].1);
        assert(out[j] == sorted[j].1);
        assert(sorted[i].0 == a);
        assert(sorted[j].0 == b);
        keys_follow(a, b, reverse);
    }
}

proof fn rows_stay(rows: Seq<ValueView>, out: Seq<ValueView>, i: int)
    requires
        out.to_multiset() == rows.to_multiset(),
        0 <= i < out.len(),
        forall|k: int| 0 <= k < rows.len() ==> proper(#[trigger] rows[k]),
    ensures
        proper(out[i]),
{
    broadcast use vstd::seq_lib::group_to_multiset_ensures;

    assert(out.contains(out[i]));
    assert(out.to_multiset().count(out[i]) > 0);
    assert(rows.contains(out[i]));
}

} // verus!
