//! What the commands share: which part of an item they look at, how many items
//! they take, and how they complain.

use crate::ask::{Replies, ReplySeq, Stop, StopView, Ticket};
use crate::callable;
use crate::callable::{Fault, FaultView, Selector, SelectorView};
use crate::error::{ErrorKind, ErrorView, ShellError, Span};
use crate::expr;
use crate::render::table;
use crate::signature;
use crate::signature::{BoundCall, BoundCallView};
use crate::text;
use crate::value;
use crate::value::{Value, ValueView};
use vstd::prelude::*;

verus! {

broadcast use crate::value::value_view_cases;

/// A command was handed a value of the wrong type.
pub open spec fn type_failure(cmd: Seq<char>, wanted: Seq<char>, got: ValueView) -> ErrorView {
    ErrorView::bare(
        ErrorKind::Type,
        "`"@ + cmd + "` expects "@ + wanted + ", found "@ + value::type_label_of(got),
    )
}

pub fn type_err(cmd: &str, wanted: &str, got: &Value) -> (r: ShellError)
    ensures
        r@ == type_failure(cmd@, wanted@, got@),
{
    let mut msg = text::around("`", cmd, "` expects ");
    msg.append(wanted);
    msg.append(", found ");
    msg.append(got.type_label());
    ShellError::new(ErrorKind::Type, msg.as_str())
}

/// The first positional argument as a text; empty where it is none.
pub open spec fn first_text(call: BoundCallView) -> Seq<char> {
    if call.positionals.len() > 0 {
        match call.positionals[0] {
            ValueView::Str(s) => s,
            _ => Seq::empty(),
        }
    } else {
        Seq::empty()
    }
}

pub fn take_first_text(call: &BoundCall) -> (r: String)
    ensures
        r@ == first_text(call@),
{
    if call.positionals.len() > 0 {
        proof {
            assert(call@.positionals[0] == call.positionals@[0]@);
        }
        match &call.positionals[0] {
            Value::Str(s) => s.clone(),
            _ => String::new(),
        }
    } else {
        String::new()
    }
}

/// A selector, or why there is none.
pub open spec fn selector_result(r: Result<Selector, Stop>) -> Result<SelectorView, StopView> {
    match r {
        Ok(s) => Ok(s@),
        Err(e) => Err(e@),
    }
}

/// The selector that a text stands for; a message is put behind `lead`.
pub open spec fn resolved_at(
    lead: Seq<char>,
    spec_text: Seq<char>,
    span: Span,
    replies: ReplySeq,
) -> Result<SelectorView, StopView> {
    match callable::resolved(spec_text, replies) {
        Ok(s) => Ok(s),
        Err(FaultView::Message(msg)) => Err(
            StopView::Fail(
                ErrorView::at(ErrorKind::Binding, lead + spec_text + "`: "@ + msg, span),
            ),
        ),
        Err(FaultView::Need(q)) => Err(StopView::Need(q)),
    }
}

pub fn resolve_at(lead: &str, spec_text: &str, span: Span, replies: &Replies) -> (r: Result<
    Selector,
    Stop,
>)
    ensures
        selector_result(r) == resolved_at(lead@, spec_text@, span, replies@),
{
    match Selector::parse(spec_text, replies) {
        Ok(s) => Ok(s),
        Err(Fault::Message(m)) => {
            let mut msg = text::around(lead, spec_text, "`: ");
            msg.append(m.as_str());
            Err(
                Stop::Fail(ShellError::new(ErrorKind::Binding, msg.as_str()).with_span(span)),
            )
        },
        Err(Fault::Need(q)) => Err(Stop::Need(q)),
    }
}

/// The common `--on` parameter.
pub open spec fn on_choice(call: BoundCallView, replies: ReplySeq) -> Result<
    Option<SelectorView>,
    StopView,
> {
    match signature::closure_named(call.closures, "on"@) {
        Some(c) => Ok(Some(SelectorView::Closure(c))),
        None => match value::lookup(call.flags, "on"@) {
            Some(ValueView::Str(s)) => match resolved_at("`--on "@, s, call.head_span, replies) {
                Ok(sel) => Ok(Some(sel)),
                Err(e) => Err(e),
            },
            _ => Ok(None),
        },
    }
}

/// Resolve the common `--on` parameter into a [`Selector`], turning a host
/// resolution failure into a spanned shell error.
pub fn on_selector(call: &BoundCall, replies: &Replies) -> (r: Result<Option<Selector>, Stop>)
    ensures
        match r {
            Ok(Some(s)) => on_choice(call@, replies@) == Ok::<Option<SelectorView>, StopView>(
                Some(s@),
            ),
            Ok(None) => on_choice(call@, replies@) == Ok::<Option<SelectorView>, StopView>(None),
            Err(e) => on_choice(call@, replies@) == Err::<Option<SelectorView>, StopView>(e@),
        },
{
    // A closure literal — `--on {|x| …}` — needs no host at all.
    match call.closure("on") {
        Some(c) => {
            return Ok(Some(Selector::Closure(c.clone())));
        },
        None => {},
    }
    match call.flag("on") {
        Some(Value::Str(s)) => match resolve_at("`--on ", s.as_str(), call.head_span, replies) {
            Ok(sel) => Ok(Some(sel)),
            Err(e) => Err(e),
        },
        _ => Ok(None),
    }
}

/// A positional selector argument.
pub open spec fn positional_choice(
    call: BoundCallView,
    param: Seq<char>,
    replies: ReplySeq,
) -> Result<SelectorView, StopView> {
    match signature::closure_named(call.closures, param) {
        Some(c) => Ok(SelectorView::Closure(c)),
        None => resolved_at("`"@, first_text(call), call.head_span, replies),
    }
}

/// Resolve a positional selector argument: a closure literal if one was
/// given, otherwise the string form routed through the host.
pub fn positional_selector(call: &BoundCall, param: &str, replies: &Replies) -> (r: Result<
    Selector,
    Stop,
>)
    ensures
        selector_result(r) == positional_choice(call@, param@, replies@),
{
    match call.closure(param) {
        Some(c) => {
            return Ok(Selector::Closure(c.clone()));
        },
        None => {},
    }
    let spec_text = take_first_text(call);
    resolve_at("`", spec_text.as_str(), call.head_span, replies)
}

/// A selector applied to an item, with its failure as an error at a place.
pub open spec fn projected(
    sel: SelectorView,
    item: ValueView,
    span: Span,
    ticket: Ticket,
    replies: ReplySeq,
) -> Result<ValueView, StopView> {
    match callable::applied(sel, item, ticket, replies) {
        Ok(v) => Ok(v),
        Err(FaultView::Message(msg)) => Err(
            StopView::Fail(ErrorView::at(ErrorKind::Runtime, msg, span)),
        ),
        Err(FaultView::Need(q)) => Err(StopView::Need(q)),
    }
}

/// Apply a selector, converting its failure into a spanned shell error.
pub fn project(sel: &Selector, item: &Value, span: Span, ticket: Ticket, replies: &Replies) -> (r:
    Result<Value, Stop>)
    ensures
        expr::value_result(r) == projected(sel@, item@, span, ticket, replies@),
{
    match sel.apply(item, ticket, replies) {
        Ok(v) => Ok(v),
        Err(Fault::Message(msg)) => Err(
            Stop::Fail(ShellError::runtime(msg.as_str()).with_span(span)),
        ),
        Err(Fault::Need(q)) => Err(Stop::Need(q)),
    }
}

/// The complaint about a field selector that names a column no row has.
pub open spec fn column_complaint(sel: SelectorView, items: Seq<ValueView>, span: Span) -> Option<
    ErrorView,
> {
    match callable::head_of(sel) {
        None => None,
        Some(field) => {
            let seen = table::columns_of(items);
            if items.len() == 0 || seen.contains(field) {
                None
            } else {
                Some(
                    ErrorView::at(
                        ErrorKind::Runtime,
                        "no column `"@ + field + "`"@,
                        span,
                    ).helped(
                        if seen.len() == 0 {
                            "`--on <field>` applies to tables (lists of records)"@
                        } else {
                            "available columns: "@ + text::joined(seen, ", "@)
                        },
                    ),
                )
            }
        },
    }
}

fn has_name(names: &Vec<String>, name: &str) -> (r: bool)
    ensures
        r == text::texts(names@).contains(name@),
{
    let ghost all = text::texts(names@);
    let mut i: usize = 0;
    while i < names.len()
        invariant
            i <= names@.len(),
            all == text::texts(names@),
            forall|k: int| 0 <= k < i ==> #[trigger] all[k] != name@,
        decreases names@.len() - i,
    {
        if text::same_text(names[i].as_str(), name) {
            proof {
                assert(all[i as int] == name@);
            }
            return true;
        }
        i = i + 1;
    }
    false
}

/// "no column `x`", with the columns there are.
pub fn no_column(field: &str, seen: &Vec<String>, span: Span) -> (r: ShellError)
    ensures
        r@ == ErrorView::at(ErrorKind::Runtime, "no column `"@ + field@ + "`"@, span).helped(
            "available columns: "@ + text::joined(text::texts(seen@), ", "@),
        ),
{
    let msg = text::around("no column `", field, "`");
    let list = text::join(seen, seen.len(), ", ");
    proof {
        assert(text::texts(seen@).take(seen@.len() as int) =~= text::texts(seen@));
    }
    let mut help = "available columns: ".to_owned();
    help.append(list.as_str());
    ShellError::new(ErrorKind::Runtime, msg.as_str()).with_span(span).with_help(help.as_str())
}

/// If a field selector names a column no row has, that's a typo — say so
/// rather than silently returning nothing. Callables get no such check;
/// computing `null` is legitimate for them.
pub fn check_field_exists(sel: &Selector, items: &Vec<Value>, span: Span) -> (r: Result<
    (),
    ShellError,
>)
    ensures
        match r {
            Ok(_) => column_complaint(sel@, value::values_view(items@), span) is None,
            Err(e) => column_complaint(sel@, value::values_view(items@), span) == Some(e@),
        },
{
    match sel.head_field() {
        None => Ok(()),
        Some(field) => {
            if items.len() == 0 {
                return Ok(());
            }
            let seen = table::table_columns(items);
            if has_name(&seen, field) {
                return Ok(());
            }
            if seen.len() == 0 {
                let msg = text::around("no column `", field, "`");
                return Err(
                    ShellError::new(ErrorKind::Runtime, msg.as_str()).with_span(span).with_help(
                        "`--on <field>` applies to tables (lists of records)",
                    ),
                );
            }
            Err(no_column(field, &seen, span))
        },
    }
}

/// How many rows `head` and `tail` were asked for.
pub open spec fn count_asked(call: BoundCallView) -> Result<Option<usize>, ErrorView> {
    if call.positionals.len() == 0 {
        Ok(None)
    } else {
        match call.positionals[0] {
            ValueView::Int(n) => if n < 0 {
                Err(
                    ErrorView::at(
                        ErrorKind::Runtime,
                        "`"@ + text::decimal_text(n as int) + "` is negative"@,
                        call.head_span,
                    ),
                )
            } else if n <= usize::MAX {
                Ok(Some(n as usize))
            } else {
                Ok(Some(usize::MAX))
            },
            other => Err(type_failure("head/tail"@, "an int"@, other)),
        }
    }
}

pub fn take_n(call: &BoundCall) -> (r: Result<Option<usize>, ShellError>)
    ensures
        match r {
            Ok(n) => count_asked(call@) == Ok::<Option<usize>, ErrorView>(n),
            Err(e) => count_asked(call@) == Err::<Option<usize>, ErrorView>(e@),
        },
{
    if call.positionals.len() == 0 {
        return Ok(None);
    }
    proof {
        assert(call@.positionals[0] == call.positionals@[0]@);
    }
    match &call.positionals[0] {
        Value::Int(n) => {
            if *n < 0 {
                let number = text::int_text(*n);
                let msg = text::around("`", number.as_str(), "` is negative");
                return Err(ShellError::runtime(msg.as_str()).with_span(call.head_span));
            }
            // Where counts are narrower than the number, the largest count
            // stands for it: an as-cast would silently take too few rows.
            if *n as u64 <= usize::MAX as u64 {
                Ok(Some(*n as usize))
            } else {
                Ok(Some(usize::MAX))
            }
        },
        other => Err(type_err("head/tail", "an int", other)),
    }
}

} // verus!
