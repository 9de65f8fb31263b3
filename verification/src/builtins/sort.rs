//! `sort-by`: a stable sort of rows by a field or a computed key.

use crate::ask::{Replies, ReplySeq, Stop, StopView, Ticket};
use crate::builtins::select;
use crate::callable::{Selector, SelectorView};
use crate::error::{ErrorKind, ErrorView, ShellError, Span};
use crate::expr;
use crate::signature;
use crate::signature::{BoundCall, BoundCallView};
use crate::value;
use crate::value::{Value, ValueView};
use std::cmp::Ordering;
use vstd::prelude::*;

verus! {

broadcast use crate::value::value_view_cases;

/// A row with the key it is sorted by.
pub type Row = (ValueView, ValueView);

pub open spec fn rows_view(rows: Seq<(Value, Value)>) -> Seq<Row> {
    rows.map_values(|r: (Value, Value)| (r.0@, r.1@))
}

/// Does one key come after another? A null key, which is what a missing field
/// gives, comes after all others in either direction.
pub open spec fn key_after(a: ValueView, b: ValueView, reverse: bool) -> bool {
    if a is Null {
        !(b is Null)
    } else if b is Null {
        false
    } else if reverse {
        value::sort_order(a, b) == Ordering::Less
    } else {
        value::sort_order(a, b) == Ordering::Greater
    }
}

/// `key_after` orders keys up to ties: no key comes after itself, of two keys
/// at most one comes after the other, and both "after" and "not after" carry
/// along a chain.
pub proof fn key_after_is_an_order(a: ValueView, b: ValueView, c: ValueView, reverse: bool)
    ensures
        !key_after(a, a, reverse),
        !(key_after(a, b, reverse) && key_after(b, a, reverse)),
        !key_after(a, b, reverse) && !key_after(b, c, reverse) ==> !key_after(a, c, reverse),
        key_after(a, b, reverse) && key_after(b, c, reverse) ==> key_after(a, c, reverse),
{
    value::sort_order_is_a_preorder(a, b, c);
    value::sort_order_is_a_preorder(c, b, a);
    value::sort_order_is_a_preorder(a, c, b);
    value::sort_order_is_a_preorder(b, c, a);
    value::sort_order_is_a_preorder(b, a, c);
}

fn comes_after(a: &Value, b: &Value, reverse: bool) -> (r: bool)
    ensures
        r == key_after(a@, b@, reverse),
{
    match (a, b) {
        (Value::Null, Value::Null) => false,
        (Value::Null, _) => true,
        (_, Value::Null) => false,
        _ => match a.total_cmp_values(b) {
            Ordering::Greater => !reverse,
            Ordering::Less => reverse,
            Ordering::Equal => false,
        },
    }
}

/// Sorted rows with one more at its place: behind the rows that do not come
/// after it.
pub open spec fn placed(sorted: Seq<Row>, x: Row, reverse: bool) -> Seq<Row>
    decreases sorted.len(),
{
    if sorted.len() > 0 && key_after(sorted.last().0, x.0, reverse) {
        placed(sorted.drop_last(), x, reverse).push(sorted.last())
    } else {
        sorted.push(x)
    }
}

/// Rows sorted by their keys, ties in the order they came.
pub open spec fn sorted_rows(rows: Seq<Row>, reverse: bool) -> Seq<Row>
    decreases rows.len(),
{
    if rows.len() == 0 {
        Seq::empty()
    } else {
        placed(sorted_rows(rows.drop_last(), reverse), rows.last(), reverse)
    }
}

pub open spec fn in_order(rows: Seq<Row>, reverse: bool) -> bool {
    forall|i: int, j: int|
        0 <= i < j < rows.len() ==> !key_after(
            (#[trigger] rows[i]).0,
            (#[trigger] rows[j]).0,
            reverse,
        )
}

/// The rows whose keys tie with a key.
pub open spec fn ties_with(k: ValueView, reverse: bool) -> spec_fn(Row) -> bool {
    |r: Row| !key_after(r.0, k, reverse) && !key_after(k, r.0, reverse)
}

proof fn placing(sorted: Seq<Row>, x: Row, reverse: bool)
    requires
        in_order(sorted, reverse),
    ensures
        in_order(placed(sorted, x, reverse), reverse),
        placed(sorted, x, reverse).to_multiset() == sorted.to_multiset().insert(x),
        placed(sorted, x, reverse).len() == sorted.len() + 1,
        forall|i: int|
            0 <= i <= sorted.len() ==> #[trigger] placed(sorted, x, reverse)[i] == x
                || sorted.contains(placed(sorted, x, reverse)[i]),
    decreases sorted.len(),
{
    broadcast use vstd::seq_lib::group_to_multiset_ensures;

    let out = placed(sorted, x, reverse);
    if sorted.len() > 0 && key_after(sorted.last().0, x.0, reverse) {
        let init = sorted.drop_last();
        let last = sorted.last();
        placing(init, x, reverse);
        let inner = placed(init, x, reverse);
        assert(sorted =~= init.push(last));
        assert forall|i: int, j: int| 0 <= i < j < out.len() implies !key_after(
            (#[trigger] out[i]).0,
            (#[trigger] out[j]).0,
            reverse,
        ) by {
            if j == out.len() - 1 {
                assert(out[i] == inner[i]);
                if inner[i] == x {
                    key_after_is_an_order(x.0, last.0, x.0, reverse);
                } else {
                    let k = choose|k: int| 0 <= k < init.len() && init[k] == inner[i];
                    assert(sorted[k] == inner[i]);
                    assert(sorted[sorted.len() - 1] == last);
                }
            } else {
                assert(out[i] == inner[i] && out[j] == inner[j]);
            }
        }
        assert forall|i: int| 0 <= i <= sorted.len() implies #[trigger] out[i] == x
            || sorted.contains(out[i]) by {
            if i < sorted.len() {
                assert(out[i] == inner[i]);
                if inner[i] != x {
                    let k = choose|k: int| 0 <= k < init.len() && init[k] == inner[i];
                    assert(sorted[k] == inner[i]);
                }
            } else {
                assert(sorted[sorted.len() - 1] == out[i]);
            }
        }
        assert(out.to_multiset() =~= sorted.to_multiset().insert(x));
    } else {
        assert forall|i: int, j: int| 0 <= i < j < out.len() implies !key_after(
            (#[trigger] out[i]).0,
            (#[trigger] out[j]).0,
            reverse,
        ) by {
            if j == out.len() - 1 {
                let last = sorted.last();
                assert(out[i] == sorted[i]);
                key_after_is_an_order(sorted[i].0, last.0, x.0, reverse);
                assert(i < sorted.len() - 1 ==> !key_after(
                    sorted[i].0,
                    sorted[sorted.len() - 1].0,
                    reverse,
                ));
            } else {
                assert(out[i] == sorted[i] && out[j] == sorted[j]);
            }
        }
        assert forall|i: int| 0 <= i <= sorted.len() implies #[trigger] out[i] == x
            || sorted.contains(out[i]) by {
            if i < sorted.len() {
                assert(sorted[i] == out[i]);
            }
        }
    }
}

proof fn placing_keeps_ties(sorted: Seq<Row>, x: Row, k: ValueView, reverse: bool)
    ensures
        placed(sorted, x, reverse).filter(ties_with(k, reverse)) == sorted.push(x).filter(
            ties_with(k, reverse),
        ),
    decreases sorted.len(),
{
    let p = ties_with(k, reverse);
    if sorted.len() > 0 && key_after(sorted.last().0, x.0, reverse) {
        let init = sorted.drop_last();
        let last = sorted.last();
        placing_keeps_ties(init, x, k, reverse);
        filter_push(placed(init, x, reverse), last, p);
        filter_push(init, x, p);
        filter_push(init, last, p);
        filter_push(sorted, x, p);
        assert(sorted =~= init.push(last));
        if p(x) && p(last) {
            key_after_is_an_order(last.0, k, x.0, reverse);
        }
    }
}

proof fn filter_push(s: Seq<Row>, x: Row, p: spec_fn(Row) -> bool)
    ensures
        s.push(x).filter(p) == if p(x) {
            s.filter(p).push(x)
        } else {
            s.filter(p)
        },
{
    reveal(Seq::filter);
    assert(s.push(x).drop_last() =~= s);
}

/// Sorting puts the same rows into the order of their keys, and rows whose
/// keys tie keep the order they came in.
pub proof fn sorting_is_a_stable_sort(rows: Seq<Row>, k: ValueView, reverse: bool)
    ensures
        in_order(sorted_rows(rows, reverse), reverse),
        sorted_rows(rows, reverse).to_multiset() == rows.to_multiset(),
        sorted_rows(rows, reverse).filter(ties_with(k, reverse)) == rows.filter(
            ties_with(k, reverse),
        ),
    decreases rows.len(),
{
    broadcast use vstd::seq_lib::group_to_multiset_ensures;

    if rows.len() > 0 {
        let init = rows.drop_last();
        let p = ties_with(k, reverse);
        sorting_is_a_stable_sort(init, k, reverse);
        placing(sorted_rows(init, reverse), rows.last(), reverse);
        placing_keeps_ties(sorted_rows(init, reverse), rows.last(), k, reverse);
        filter_push(sorted_rows(init, reverse), rows.last(), p);
        filter_push(init, rows.last(), p);
        assert(rows =~= init.push(rows.last()));
    } else {
        assert(sorted_rows(rows, reverse) =~= rows);
    }
}

proof fn placed_is_inserted(sorted: Seq<Row>, x: Row, p: int, reverse: bool)
    requires
        0 <= p <= sorted.len(),
        forall|k: int| p <= k < sorted.len() ==> key_after((#[trigger] sorted[k]).0, x.0, reverse),
        p > 0 ==> !key_after(sorted[p - 1].0, x.0, reverse),
    ensures
        placed(sorted, x, reverse) == sorted.insert(p, x),
    decreases sorted.len(),
{
    if sorted.len() > p {
        placed_is_inserted(sorted.drop_last(), x, p, reverse);
        assert(sorted.insert(p, x) =~= sorted.drop_last().insert(p, x).push(sorted.last()));
    } else {
        assert(sorted.insert(p, x) =~= sorted.push(x));
    }
}

fn place(sorted: &mut Vec<(Value, Value)>, x: (Value, Value), reverse: bool)
    ensures
        rows_view(final(sorted)@) == placed(rows_view(old(sorted)@), (x.0@, x.1@), reverse),
{
    let ghost was = rows_view(sorted@);
    let ghost xv = (x.0@, x.1@);
    let mut p: usize = sorted.len();
    while p > 0 && comes_after(&sorted[p - 1].0, &x.0, reverse)
        invariant
            p <= sorted@.len(),
            was == rows_view(sorted@),
            xv == (x.0@, x.1@),
            forall|k: int| p <= k < was.len() ==> key_after((#[trigger] was[k]).0, xv.0, reverse),
        decreases p,
    {
        p = p - 1;
    }
    proof {
        placed_is_inserted(was, xv, p as int, reverse);
    }
    sorted.insert(p, x);
    proof {
        assert(rows_view(sorted@) =~= was.insert(p as int, xv));
    }
}

/// The rows with their keys, each computed once.
pub open spec fn keyed(
    sel: SelectorView,
    rows: Seq<ValueView>,
    span: Span,
    step: u64,
    replies: ReplySeq,
) -> Result<Seq<Row>, StopView>
    decreases rows.len(),
{
    if rows.len() == 0 {
        Ok(Seq::empty())
    } else {
        match keyed(sel, rows.drop_last(), span, step, replies) {
            Err(e) => Err(e),
            Ok(out) => {
                let ticket = Ticket { step, nth: (rows.len() - 1) as u64 };
                match select::projected(sel, rows.last(), span, ticket, replies) {
                    Err(e) => Err(e),
                    Ok(key) => Ok(out.push((key, rows.last()))),
                }
            },
        }
    }
}

/// What the rows are sorted by.
pub open spec fn sort_choice(call: BoundCallView, replies: ReplySeq) -> Result<
    SelectorView,
    StopView,
> {
    match select::on_choice(call, replies) {
        Err(e) => Err(e),
        Ok(Some(sel)) => Ok(sel),
        Ok(None) => match signature::closure_named(call.closures, "column"@) {
            Some(c) => Ok(SelectorView::Closure(c)),
            None => if call.positionals.len() > 0 && call.positionals[0] is Str {
                select::resolved_at(
                    "`"@,
                    call.positionals[0]->Str_0,
                    call.head_span,
                    replies,
                )
            } else {
                Err(
                    StopView::Fail(
                        ErrorView::at(
                            ErrorKind::Binding,
                            "`sort-by` needs a column or `--on`"@,
                            call.head_span,
                        ).helped("try `sort-by name` or `sort-by --on {|o| $o.a + $o.b}`"@),
                    ),
                )
            },
        },
    }
}

/// The rows alone.
pub open spec fn bare_rows(rows: Seq<Row>) -> Seq<ValueView> {
    rows.map_values(|r: Row| r.1)
}

/// What `sort-by` makes of its input.
pub open spec fn sorted_by(call: BoundCallView, input: ValueView, step: u64, replies: ReplySeq) -> Result<
    ValueView,
    StopView,
> {
    match sort_choice(call, replies) {
        Err(e) => Err(e),
        Ok(sel) => match input {
            ValueView::List(rows) => match select::column_complaint(sel, rows, call.head_span) {
                Some(e) => Err(StopView::Fail(e)),
                None => match keyed(sel, rows, call.head_span, step, replies) {
                    Err(e) => Err(e),
                    Ok(pairs) => Ok(
                        ValueView::List(
                            bare_rows(
                                sorted_rows(
                                    pairs,
                                    value::lookup(call.flags, "reverse"@) == Some(
                                        ValueView::Bool(true),
                                    ),
                                ),
                            ),
                        ),
                    ),
                },
            },
            other => Err(
                StopView::Fail(
                    select::type_failure("sort-by"@, "a table (list of records)"@, other),
                ),
            ),
        },
    }
}

fn choose_key(call: &BoundCall, replies: &Replies) -> (r: Result<Selector, Stop>)
    ensures
        select::selector_result(r) == sort_choice(call@, replies@),
{
    // `sort-by n` is shorthand for `sort-by --on n`; --on wins if both are
    // given, and it additionally allows computed keys.
    match select::on_selector(call, replies) {
        Err(e) => {
            return Err(e);
        },
        Ok(Some(sel)) => {
            return Ok(sel);
        },
        Ok(None) => {},
    }
    match call.closure("column") {
        Some(c) => {
            return Ok(Selector::Closure(c.clone()));
        },
        None => {},
    }
    if call.positionals.len() > 0 {
        proof {
            assert(call@.positionals[0] == call.positionals@[0]@);
        }
        match &call.positionals[0] {
            Value::Str(col) => {
                return select::resolve_at("`", col.as_str(), call.head_span, replies);
            },
            _ => {},
        }
    }
    Err(
        Stop::Fail(
            ShellError::new(ErrorKind::Binding, "`sort-by` needs a column or `--on`").with_span(
                call.head_span,
            ).with_help("try `sort-by name` or `sort-by --on {|o| $o.a + $o.b}`"),
        ),
    )
}

/// Pair each row with its key. Keys are computed once up front rather than
/// while comparing: a callable key must not be invoked once per comparison,
/// and projection can fail, which a comparison cannot report.
fn key_rows(sel: &Selector, rows: Vec<Value>, span: Span, step: u64, replies: &Replies) -> (r:
    Result<Vec<(Value, Value)>, Stop>)
    ensures
        match r {
            Ok(pairs) => keyed(sel@, value::values_view(rows@), span, step, replies@) == Ok::<
                Seq<Row>,
                StopView,
            >(rows_view(pairs@)),
            Err(e) => keyed(sel@, value::values_view(rows@), span, step, replies@) == Err::<
                Seq<Row>,
                StopView,
            >(e@),
        },
{
    let ghost all = value::values_view(rows@);
    let mut out: Vec<(Value, Value)> = Vec::new();
    let mut i: usize = 0;
    proof {
        assert(rows_view(out@) =~= Seq::<Row>::empty());
    }
    while i < rows.len()
        invariant
            i <= rows@.len(),
            all == value::values_view(rows@),
            keyed(sel@, all.take(i as int), span, step, replies@) == Ok::<Seq<Row>, StopView>(
                rows_view(out@),
            ),
        decreases rows@.len() - i,
    {
        let ticket = Ticket { step, nth: i as u64 };
        proof {
            assert(all.take(i + 1).drop_last() =~= all.take(i as int));
            assert(all.take(i + 1).last() == rows@[i as int]@);
        }
        match select::project(sel, &rows[i], span, ticket, replies) {
            Ok(key) => {
                let ghost before = rows_view(out@);
                let row = rows[i].clone();
                out.push((key, row));
                proof {
                    assert(rows_view(out@) =~= before.push((key@, rows@[i as int]@)));
                }
            },
            Err(e) => {
                proof {
                    keyed_failure_stays(sel@, all, i + 1, span, step, replies@);
                }
                return Err(e);
            },
        }
        i = i + 1;
    }
    proof {
        assert(all.take(all.len() as int) =~= all);
    }
    Ok(out)
}

proof fn keyed_failure_stays(
    sel: SelectorView,
    rows: Seq<ValueView>,
    n: int,
    span: Span,
    step: u64,
    replies: ReplySeq,
)
    requires
        0 <= n <= rows.len(),
        keyed(sel, rows.take(n), span, step, replies) is Err,
    ensures
        keyed(sel, rows, span, step, replies) == keyed(sel, rows.take(n), span, step, replies),
    decreases rows.len() - n,
{
    if n < rows.len() {
        assert(rows.take(n + 1).drop_last() =~= rows.take(n));
        keyed_failure_stays(sel, rows, n + 1, span, step, replies);
    } else {
        assert(rows.take(n) =~= rows);
    }
}

fn sort_pairs(pairs: Vec<(Value, Value)>, reverse: bool) -> (r: Vec<Value>)
    ensures
        value::values_view(r@) == bare_rows(sorted_rows(rows_view(pairs@), reverse)),
{
    let ghost all = rows_view(pairs@);
    let mut sorted: Vec<(Value, Value)> = Vec::new();
    let mut i: usize = 0;
    proof {
        assert(rows_view(sorted@) =~= sorted_rows(all.take(0), reverse));
    }
    while i < pairs.len()
        invariant
            i <= pairs@.len(),
            all == rows_view(pairs@),
            rows_view(sorted@) == sorted_rows(all.take(i as int), reverse),
        decreases pairs@.len() - i,
    {
        proof {
            assert(all.take(i + 1).drop_last() =~= all.take(i as int));
            assert(all.take(i + 1).last() == (pairs@[i as int].0@, pairs@[i as int].1@));
        }
        let x = (pairs[i].0.clone(), pairs[i].1.clone());
        place(&mut sorted, x, reverse);
        i = i + 1;
    }
    proof {
        assert(all.take(all.len() as int) =~= all);
    }
    let mut out: Vec<Value> = Vec::new();
    let mut k: usize = 0;
    while k < sorted.len()
        invariant
            k <= sorted@.len(),
            out@.len() == k,
            forall|j: int| 0 <= j < k ==> (#[trigger] out@[j])@ == sorted@[j].1@,
        decreases sorted@.len() - k,
    {
        out.push(sorted[k].1.clone());
        k = k + 1;
    }
    proof {
        assert(value::values_view(out@) =~= bare_rows(rows_view(sorted@)));
    }
    out
}

/// Sort a table by a column or computed key.
pub fn sort_by(call: &BoundCall, input: Value, step: u64, replies: &Replies) -> (r: Result<
    Value,
    Stop,
>)
    ensures
        expr::value_result(r) == sorted_by(call@, input@, step, replies@),
{
    let sel = match choose_key(call, replies) {
        Ok(s) => s,
        Err(e) => {
            return Err(e);
        },
    };
    let reverse = call.has_flag("reverse");
    let rows = match input {
        Value::List(rows) => rows,
        other => {
            return Err(
                Stop::Fail(select::type_err("sort-by", "a table (list of records)", &other)),
            );
        },
    };
    match select::check_field_exists(&sel, &rows, call.head_span) {
        Ok(_) => {},
        Err(e) => {
            return Err(Stop::Fail(e));
        },
    }
    match key_rows(&sel, rows, call.head_span, step, replies) {
        Ok(pairs) => Ok(Value::List(sort_pairs(pairs, reverse))),
        Err(e) => Err(e),
    }
}

} // verus!
