//! Evaluating expressions, and wrapping a closure literal as a callable.
//!
//! This is what makes closures work identically everywhere: unlike inline
//! JavaScript, nothing here needs a host engine, so `filter {|x| $x.n > 5}`
//! behaves the same in the browser and in the native CLI — and needs no
//! `eval`, so a strict Content-Security-Policy can't switch it off.

use crate::ask;
use crate::ask::{
    FloatOp, Query, QueryView, Replies, Reply, ReplySeq, ReplyView, Stop, StopView,
};
use crate::ast::{BinOp, Closure, ClosureView, Expr, ExprView, UnOp};
use crate::callable;
use crate::error;
use crate::error::{ErrorKind, ErrorView, ShellError, Span};
use crate::float;
use crate::float::Float;
use crate::lex;
use crate::lex::{InterpPart, InterpPartView};
use crate::render;
use crate::text;
use crate::value;
use crate::value::{Fields, Value, ValueView};
use std::cmp::Ordering;
use vstd::prelude::*;

verus! {

broadcast use crate::value::value_view_cases;

/// Variable scope for `$var` and `"...$var..."`.
pub type Scope = Fields;

/// A scope as a sequence of variables.
pub type ScopeSeq = Seq<(Seq<char>, ValueView)>;

/// A value or why there is none.
pub open spec fn value_result(r: Result<Value, Stop>) -> Result<ValueView, StopView> {
    match r {
        Ok(v) => Ok(v@),
        Err(e) => Err(e@),
    }
}

pub open spec fn runtime_error(msg: Seq<char>, span: Span) -> StopView {
    StopView::Fail(ErrorView::at(ErrorKind::Runtime, msg, span))
}

pub open spec fn type_error(msg: Seq<char>, span: Span) -> StopView {
    StopView::Fail(ErrorView::at(ErrorKind::Type, msg, span))
}

pub open spec fn unknown_var_text(name: Seq<char>) -> Seq<char> {
    "unknown variable `$"@ + name + "`"@
}

/// The diagnostic for a variable that is not there, with the closest name.
pub open spec fn unknown_variable(name: Seq<char>, scope: ScopeSeq, span: Span) -> StopView {
    let e = ErrorView::at(ErrorKind::Runtime, unknown_var_text(name), span);
    match error::suggestion(name, value::field_names(scope)) {
        Some(s) => StopView::Fail(e.helped("did you mean `$"@ + s + "`?"@)),
        None => StopView::Fail(e),
    }
}

/// The value of a variable.
pub open spec fn variable(name: Seq<char>, scope: ScopeSeq, span: Span) -> Result<
    ValueView,
    StopView,
> {
    match value::lookup(scope, name) {
        Some(v) => Ok(v),
        None => Err(unknown_variable(name, scope, span)),
    }
}

/// How a variable shows in an interpolated string: inside an expression as in
/// a table cell, in an argument in full.
#[derive(Clone, Copy, PartialEq, Eq, Structural)]
pub enum Style {
    Cell,
    Full,
}

/// A value in full: lists and records as JSON, floats as they are written.
pub open spec fn full_text(v: ValueView, replies: ReplySeq) -> Result<Seq<char>, StopView> {
    match v {
        ValueView::Str(s) => Ok(s),
        ValueView::Int(n) => Ok(text::decimal_text(n as int)),
        ValueView::Float(f) => ask::text_answer(replies, QueryView::ShowFloat(f)),
        ValueView::Bool(b) => Ok(render::bool_text(b)),
        ValueView::Null => Ok(Seq::empty()),
        _ => match ask::reply_to(replies, QueryView::WriteJson(v, false)) {
            Some(ReplyView::Text(s)) => Ok(s),
            Some(ReplyView::Refused(_)) => Ok(Seq::empty()),
            _ => Err(StopView::Need(QueryView::WriteJson(v, false))),
        },
    }
}

/// A value in a style.
pub open spec fn styled(style: Style, v: ValueView, replies: ReplySeq) -> Result<
    Seq<char>,
    StopView,
> {
    match style {
        Style::Cell => render::plain_text(v, replies),
        Style::Full => full_text(v, replies),
    }
}

/// The text of an interpolated string.
pub open spec fn interpolated(
    style: Style,
    parts: Seq<InterpPartView>,
    scope: ScopeSeq,
    span: Span,
    replies: ReplySeq,
) -> Result<Seq<char>, StopView>
    decreases parts.len(),
{
    if parts.len() == 0 {
        Ok(Seq::empty())
    } else {
        match interpolated(style, parts.drop_last(), scope, span, replies) {
            Err(e) => Err(e),
            Ok(t) => match parts.last() {
                InterpPartView::Lit(s) => Ok(t + s),
                InterpPartView::Var(name) => match value::lookup(scope, name) {
                    None => Err(runtime_error(unknown_var_text(name), span)),
                    Some(v) => match styled(style, v, replies) {
                        Ok(s) => Ok(t + s),
                        Err(e) => Err(e),
                    },
                },
            },
        }
    }
}

/// `.length` is the one pseudo-field, because it is what everyone reaches for
/// on a string or list. Any other missing field is `null`.
pub open spec fn pseudo_field(v: ValueView, key: Seq<char>) -> ValueView {
    if key != "length"@ {
        ValueView::Null
    } else {
        match v {
            ValueView::Str(s) => ValueView::Int(s.len() as i64),
            ValueView::List(items) => ValueView::Int(items.len() as i64),
            ValueView::Record(fields) => ValueView::Int(fields.len() as i64),
            _ => ValueView::Null,
        }
    }
}

/// One field of a value. A real field wins over the pseudo-field.
pub open spec fn field_of(v: ValueView, key: Seq<char>) -> ValueView {
    match v {
        ValueView::Record(fields) => match value::lookup(fields, key) {
            Some(x) => x,
            None => pseudo_field(v, key),
        },
        _ => pseudo_field(v, key),
    }
}

/// The value at the end of a field path.
pub open spec fn path_value(v: ValueView, path: Seq<Seq<char>>) -> ValueView
    decreases path.len(),
{
    if path.len() == 0 {
        v
    } else {
        field_of(path_value(v, path.drop_last()), path.last())
    }
}

/// Missing fields are `null`, not an error: a path of real fields of which the
/// first is missing ends in `null`, whatever follows.
pub proof fn missing_fields_are_null(v: ValueView, path: Seq<Seq<char>>)
    requires
        path.len() > 0,
        field_of(v, path[0]) is Null,
    ensures
        path_value(v, path) is Null,
    decreases path.len(),
{
    if path.len() == 1 {
        assert(path.drop_last().len() == 0);
        assert(path_value(v, path.drop_last()) == v);
        assert(path.last() == path[0]);
    } else {
        missing_fields_are_null(v, path.drop_last());
    }
}

pub open spec fn negated(v: ValueView, span: Span) -> Result<ValueView, StopView> {
    match v {
        ValueView::Int(n) => if n == i64::MIN {
            Err(runtime_error("integer overflow"@, span))
        } else {
            Ok(ValueView::Int((-n) as i64))
        },
        ValueView::Float(f) => Ok(ValueView::Float(f.negated())),
        _ => Err(type_error("cannot negate "@ + value::type_label_of(v), span)),
    }
}

/// Integer arithmetic; nothing where the result does not fit or the divisor
/// is zero.
pub open spec fn int_result(op: BinOp, a: i64, b: i64) -> Option<i64> {
    match op {
        BinOp::Add => a.checked_add(b),
        BinOp::Sub => a.checked_sub(b),
        BinOp::Mul => a.checked_mul(b),
        BinOp::Div => a.checked_div(b),
        _ => a.checked_rem(b),
    }
}

pub open spec fn float_op(op: BinOp) -> FloatOp {
    match op {
        BinOp::Add => FloatOp::Add,
        BinOp::Sub => FloatOp::Sub,
        BinOp::Mul => FloatOp::Mul,
        BinOp::Div => FloatOp::Div,
        _ => FloatOp::Rem,
    }
}

/// A number as a float.
pub open spec fn as_float(v: ValueView) -> Option<Float> {
    match v {
        ValueView::Int(n) => Some(float::nearest_float(n)),
        ValueView::Float(f) => Some(f),
        _ => None,
    }
}

/// Integer math stays integral; anything involving a float promotes.
pub open spec fn arithmetic_result(
    op: BinOp,
    l: ValueView,
    r: ValueView,
    span: Span,
    replies: ReplySeq,
) -> Result<ValueView, StopView> {
    match (l, r) {
        (ValueView::Int(a), ValueView::Int(b)) => if (op == BinOp::Div || op == BinOp::Rem) && b
            == 0 {
            Err(runtime_error("division by zero"@, span))
        } else {
            match int_result(op, a, b) {
                Some(n) => Ok(ValueView::Int(n)),
                None => Err(runtime_error("integer overflow"@, span)),
            }
        },
        _ => match (as_float(l), as_float(r)) {
            (Some(a), Some(b)) => match ask::float_answer(
                replies,
                QueryView::Compute(float_op(op), a, b),
            ) {
                Ok(f) => Ok(ValueView::Float(f)),
                Err(e) => Err(e),
            },
            _ => Err(
                type_error(
                    "cannot do arithmetic on "@ + value::type_label_of(l) + " and "@
                        + value::type_label_of(r),
                    span,
                ),
            ),
        },
    }
}

pub open spec fn is_comparison(op: BinOp) -> bool {
    op == BinOp::Lt || op == BinOp::Le || op == BinOp::Gt || op == BinOp::Ge
}

/// Does an order satisfy a comparison?
pub open spec fn comparison_holds(op: BinOp, order: Ordering) -> bool {
    match op {
        BinOp::Lt => order == Ordering::Less,
        BinOp::Le => order != Ordering::Greater,
        BinOp::Gt => order == Ordering::Greater,
        _ => order != Ordering::Less,
    }
}

/// A comparison with a missing value is false; genuinely incomparable present
/// values are an error, since that is an authoring mistake worth surfacing.
pub open spec fn compared(op: BinOp, l: ValueView, r: ValueView, span: Span) -> Result<
    ValueView,
    StopView,
> {
    if l is Null || r is Null {
        Ok(ValueView::Bool(false))
    } else {
        match value::value_order(l, r) {
            Some(order) => Ok(ValueView::Bool(comparison_holds(op, order))),
            None => Err(
                type_error(
                    "cannot compare "@ + value::type_label_of(l) + " with "@
                        + value::type_label_of(r),
                    span,
                ),
            ),
        }
    }
}

/// `+` concatenates when either side is a string, as in JavaScript.
pub open spec fn concatenated(l: ValueView, r: ValueView, replies: ReplySeq) -> Result<
    ValueView,
    StopView,
> {
    match (render::plain_text(l, replies), render::plain_text(r, replies)) {
        (Ok(a), Ok(b)) => Ok(ValueView::Str(a + b)),
        (Err(e), _) => Err(e),
        (_, Err(e)) => Err(e),
    }
}

/// A binary operator on two values. `&&` and `||` take the truth of both.
pub open spec fn binary_result(
    op: BinOp,
    l: ValueView,
    r: ValueView,
    span: Span,
    replies: ReplySeq,
) -> Result<ValueView, StopView> {
    if op == BinOp::Eq {
        Ok(ValueView::Bool(value::loosely_equal(l, r)))
    } else if op == BinOp::Ne {
        Ok(ValueView::Bool(!value::loosely_equal(l, r)))
    } else if is_comparison(op) {
        compared(op, l, r, span)
    } else if op == BinOp::And {
        Ok(ValueView::Bool(callable::truthy(l) && callable::truthy(r)))
    } else if op == BinOp::Or {
        Ok(ValueView::Bool(callable::truthy(l) || callable::truthy(r)))
    } else if op == BinOp::Add && (l is Str || r is Str) {
        concatenated(l, r, replies)
    } else {
        arithmetic_result(op, l, r, span, replies)
    }
}

/// The value of an expression in a scope.
pub open spec fn evaluated(e: ExprView, scope: ScopeSeq, replies: ReplySeq) -> Result<
    ValueView,
    StopView,
>
    decreases e,
{
    match e {
        ExprView::Literal(v, _) => Ok(v),
        ExprView::Bareword(w, _) => Ok(ValueView::Str(w)),
        ExprView::Var(name, span) => variable(name, scope, span),
        ExprView::StrInterp(parts, span) => match interpolated(
            Style::Cell,
            parts,
            scope,
            span,
            replies,
        ) {
            Ok(t) => Ok(ValueView::Str(t)),
            Err(e) => Err(e),
        },
        ExprView::Field { base, path, .. } => match evaluated(*base, scope, replies) {
            Ok(v) => Ok(path_value(v, path)),
            Err(e) => Err(e),
        },
        ExprView::Unary { op, operand, span } => match evaluated(*operand, scope, replies) {
            Ok(v) => match op {
                UnOp::Not => Ok(ValueView::Bool(!callable::truthy(v))),
                UnOp::Neg => negated(v, span),
            },
            Err(e) => Err(e),
        },
        ExprView::Binary { op, lhs, rhs, span } => match evaluated(*lhs, scope, replies) {
            Err(e) => Err(e),
            Ok(l) => if op == BinOp::And && !callable::truthy(l) {
                Ok(ValueView::Bool(false))
            } else if op == BinOp::Or && callable::truthy(l) {
                Ok(ValueView::Bool(true))
            } else {
                match evaluated(*rhs, scope, replies) {
                    Err(e) => Err(e),
                    Ok(r) => binary_result(op, l, r, span, replies),
                }
            },
        },
        ExprView::Closure(_, span) => Err(
            StopView::Fail(
                ErrorView::at(ErrorKind::Type, "a closure is not a value here"@, span).helped(
                    "closures are only accepted where a command takes a function"@,
                ),
            ),
        ),
    }
}

/// `&&` and `||` short-circuit: where the left side decides, the right side
/// has no influence, not even by failing.
pub proof fn logical_operators_short_circuit(
    l: ExprView,
    r1: ExprView,
    r2: ExprView,
    span: Span,
    scope: ScopeSeq,
    replies: ReplySeq,
)
    requires
        evaluated(l, scope, replies) is Ok,
    ensures
        !callable::truthy(evaluated(l, scope, replies)->Ok_0) ==> evaluated(
            ExprView::Binary { op: BinOp::And, lhs: Box::new(l), rhs: Box::new(r1), span },
            scope,
            replies,
        ) == evaluated(
            ExprView::Binary { op: BinOp::And, lhs: Box::new(l), rhs: Box::new(r2), span },
            scope,
            replies,
        ),
        callable::truthy(evaluated(l, scope, replies)->Ok_0) ==> evaluated(
            ExprView::Binary { op: BinOp::Or, lhs: Box::new(l), rhs: Box::new(r1), span },
            scope,
            replies,
        ) == evaluated(
            ExprView::Binary { op: BinOp::Or, lhs: Box::new(l), rhs: Box::new(r2), span },
            scope,
            replies,
        ),
{
}

/// The names of a scope's variables.
fn scope_names(scope: &Scope) -> (r: Vec<String>)
    ensures
        text::texts(r@) == value::field_names(scope@),
{
    let mut names: Vec<String> = Vec::new();
    let mut i: usize = 0;
    while i < scope.len()
        invariant
            i <= scope@.len(),
            names@.len() == i,
            forall|j: int| 0 <= j < i ==> (#[trigger] names@[j])@ == scope@[j].0,
        decreases scope@.len() - i,
    {
        names.push(scope.name(i).clone());
        i = i + 1;
    }
    proof {
        assert(text::texts(names@) =~= value::field_names(scope@));
    }
    names
}

/// The value of a variable.
pub fn eval_var(name: &String, span: Span, scope: &Scope) -> (r: Result<Value, Stop>)
    ensures
        value_result(r) == variable(name@, scope@, span),
{
    match scope.get(name.as_str()) {
        Some(v) => Ok(v.clone()),
        None => {
            let e = ShellError::runtime(
                text::around("unknown variable `$", name.as_str(), "`").as_str(),
            ).with_span(span);
            match error::did_you_mean(name.as_str(), &scope_names(scope)) {
                Some(s) => Err(
                    Stop::Fail(e.with_help(text::around("did you mean `$", s.as_str(), "`?").as_str())),
                ),
                None => Err(Stop::Fail(e)),
            }
        },
    }
}

/// A value in full.
fn to_display_string(v: &Value, replies: &Replies) -> (r: Result<String, Stop>)
    ensures
        render::text_result(r) == full_text(v@, replies@),
{
    match v {
        Value::Str(s) => Ok(s.clone()),
        Value::Int(n) => Ok(text::int_text(*n)),
        Value::Float(f) => ask::ask_text(replies, Query::ShowFloat(*f)),
        Value::Bool(b) => Ok(render::show_bool(*b)),
        Value::Null => Ok(String::new()),
        _ => {
            let query = Query::WriteJson(v.clone(), false);
            match replies.find(&query) {
                Some(Reply::Text(s)) => Ok(s.clone()),
                Some(Reply::Refused(_)) => Ok(String::new()),
                _ => Err(Stop::Need(query)),
            }
        },
    }
}

fn show(style: Style, v: &Value, replies: &Replies) -> (r: Result<String, Stop>)
    ensures
        render::text_result(r) == styled(style, v@, replies@),
{
    match style {
        Style::Cell => render::plain(v, replies),
        Style::Full => to_display_string(v, replies),
    }
}

/// The text of an interpolated string.
pub fn eval_interp(
    style: Style,
    parts: &Vec<InterpPart>,
    span: Span,
    scope: &Scope,
    replies: &Replies,
) -> (r: Result<String, Stop>)
    ensures
        render::text_result(r) == interpolated(
            style,
            lex::parts_view(parts@),
            scope@,
            span,
            replies@,
        ),
{
    let ghost all = lex::parts_view(parts@);
    let mut out = String::new();
    let mut i: usize = 0;
    while i < parts.len()
        invariant
            i <= parts@.len(),
            all == lex::parts_view(parts@),
            interpolated(style, all.take(i as int), scope@, span, replies@) == Ok::<
                Seq<char>,
                StopView,
            >(out@),
        decreases parts@.len() - i,
    {
        proof {
            assert(all.take(i + 1).drop_last() =~= all.take(i as int));
            assert(all.take(i + 1).last() == parts@[i as int]@);
        }
        match &parts[i] {
            InterpPart::Lit(s) => {
                out.append(s.as_str());
            },
            InterpPart::Var(name) => match scope.get(name.as_str()) {
                None => {
                    proof {
                        interpolation_stops(style, all, i + 1, scope@, span, replies@);
                    }
                    return Err(
                        Stop::Fail(
                            ShellError::runtime(
                                text::around("unknown variable `$", name.as_str(), "`").as_str(),
                            ).with_span(span),
                        ),
                    );
                },
                Some(v) => match show(style, v, replies) {
                    Ok(t) => {
                        out.append(t.as_str());
                    },
                    Err(e) => {
                        proof {
                            interpolation_stops(style, all, i + 1, scope@, span, replies@);
                        }
                        return Err(e);
                    },
                },
            },
        }
        i = i + 1;
    }
    proof {
        assert(all.take(all.len() as int) =~= all);
    }
    Ok(out)
}

/// A failure among the first parts is the failure of the whole.
proof fn interpolation_stops(
    style: Style,
    parts: Seq<InterpPartView>,
    i: int,
    scope: ScopeSeq,
    span: Span,
    replies: ReplySeq,
)
    requires
        0 <= i <= parts.len(),
        interpolated(style, parts.take(i), scope, span, replies) is Err,
    ensures
        interpolated(style, parts, scope, span, replies) == interpolated(
            style,
            parts.take(i),
            scope,
            span,
            replies,
        ),
    decreases parts.len(),
{
    if i == parts.len() {
        assert(parts.take(i) =~= parts);
    } else {
        assert(parts.drop_last().take(i) =~= parts.take(i));
        interpolation_stops(style, parts.drop_last(), i, scope, span, replies);
    }
}

/// `.length` is the one pseudo-field; real record fields shadow it.
fn field_fallback(value: &Value, key: &str) -> (r: Value)
    ensures
        r@ == pseudo_field(value@, key@),
{
    if !text::same_text(key, "length") {
        return Value::Null;
    }
    match value {
        Value::Str(s) => Value::Int(s.as_str().unicode_len() as i64),
        Value::List(items) => Value::Int(items.len() as i64),
        Value::Record(fields) => Value::Int(fields.len() as i64),
        _ => Value::Null,
    }
}

fn eval_field(value: &Value, key: &str) -> (r: Value)
    ensures
        r@ == field_of(value@, key@),
{
    match value {
        Value::Record(fields) => match fields.get(key) {
            Some(v) => v.clone(),
            None => field_fallback(value, key),
        },
        _ => field_fallback(value, key),
    }
}

fn eval_path(value: Value, path: &Vec<String>) -> (r: Value)
    ensures
        r@ == path_value(value@, text::texts(path@)),
{
    let ghost all = text::texts(path@);
    let mut current = value;
    let mut i: usize = 0;
    while i < path.len()
        invariant
            i <= path@.len(),
            all == text::texts(path@),
            current@ == path_value(value@, all.take(i as int)),
        decreases path@.len() - i,
    {
        proof {
            assert(all.take(i + 1).drop_last() =~= all.take(i as int));
            assert(all.take(i + 1).last() == path@[i as int]@);
        }
        current = eval_field(&current, path[i].as_str());
        i = i + 1;
    }
    proof {
        assert(all.take(all.len() as int) =~= all);
    }
    current
}

fn fail_runtime(msg: &str, span: Span) -> (r: Stop)
    ensures
        r@ == runtime_error(msg@, span),
{
    Stop::Fail(ShellError::runtime(msg).with_span(span))
}

fn fail_type(msg: &str, span: Span) -> (r: Stop)
    ensures
        r@ == type_error(msg@, span),
{
    Stop::Fail(ShellError::type_error(msg).with_span(span))
}

fn negate(v: Value, span: Span) -> (r: Result<Value, Stop>)
    ensures
        value_result(r) == negated(v@, span),
{
    match v {
        Value::Int(n) => {
            if n == i64::MIN {
                Err(fail_runtime("integer overflow", span))
            } else {
                Ok(Value::Int(-n))
            }
        },
        Value::Float(f) => Ok(Value::Float(f.negate())),
        other => {
            let mut m = "cannot negate ".to_owned();
            m.append(other.type_label());
            Err(fail_type(m.as_str(), span))
        },
    }
}

fn to_float_op(op: BinOp) -> (r: FloatOp)
    ensures
        r == float_op(op),
{
    match op {
        BinOp::Add => FloatOp::Add,
        BinOp::Sub => FloatOp::Sub,
        BinOp::Mul => FloatOp::Mul,
        BinOp::Div => FloatOp::Div,
        _ => FloatOp::Rem,
    }
}

fn to_float(v: &Value) -> (r: Option<Float>)
    ensures
        r == as_float(v@),
{
    match v {
        Value::Int(n) => Some(float::from_int(*n)),
        Value::Float(f) => Some(*f),
        _ => None,
    }
}

fn two_labels(before: &str, l: &Value, between: &str, r: &Value) -> (m: String)
    ensures
        m@ == before@ + value::type_label_of(l@) + between@ + value::type_label_of(r@),
{
    let mut m = before.to_owned();
    m.append(l.type_label());
    m.append(between);
    m.append(r.type_label());
    m
}

fn arithmetic(op: BinOp, l: &Value, r: &Value, span: Span, replies: &Replies) -> (res: Result<
    Value,
    Stop,
>)
    ensures
        value_result(res) == arithmetic_result(op, l@, r@, span, replies@),
{
    if let (Value::Int(a), Value::Int(b)) = (l, r) {
        let a: i64 = *a;
        let b: i64 = *b;
        let zero_divisor = b == 0 && (op == BinOp::Div || op == BinOp::Rem);
        if zero_divisor {
            return Err(fail_runtime("division by zero", span));
        }
        let n = match op {
            BinOp::Add => a.checked_add(b),
            BinOp::Sub => a.checked_sub(b),
            BinOp::Mul => a.checked_mul(b),
            BinOp::Div => a.checked_div(b),
            _ => a.checked_rem(b),
        };
        return match n {
            Some(n) => Ok(Value::Int(n)),
            None => Err(fail_runtime("integer overflow", span)),
        };
    }
    match (to_float(l), to_float(r)) {
        (Some(a), Some(b)) => match ask::ask_float(
            replies,
            Query::Compute(to_float_op(op), a, b),
        ) {
            Ok(f) => Ok(Value::Float(f)),
            Err(e) => Err(e),
        },
        _ => Err(
            fail_type(two_labels("cannot do arithmetic on ", l, " and ", r).as_str(), span),
        ),
    }
}

fn holds(op: BinOp, order: Ordering) -> (r: bool)
    ensures
        r == comparison_holds(op, order),
{
    match op {
        BinOp::Lt => match order {
            Ordering::Less => true,
            _ => false,
        },
        BinOp::Le => match order {
            Ordering::Greater => false,
            _ => true,
        },
        BinOp::Gt => match order {
            Ordering::Greater => true,
            _ => false,
        },
        _ => match order {
            Ordering::Less => false,
            _ => true,
        },
    }
}

fn compare(op: BinOp, l: &Value, r: &Value, span: Span) -> (res: Result<Value, Stop>)
    ensures
        value_result(res) == compared(op, l@, r@, span),
{
    match (l, r) {
        (Value::Null, _) => Ok(Value::Bool(false)),
        (_, Value::Null) => Ok(Value::Bool(false)),
        _ => match l.partial_cmp_values(r) {
            Some(order) => Ok(Value::Bool(holds(op, order))),
            None => Err(fail_type(two_labels("cannot compare ", l, " with ", r).as_str(), span)),
        },
    }
}

fn concatenate(l: &Value, r: &Value, replies: &Replies) -> (res: Result<Value, Stop>)
    ensures
        value_result(res) == concatenated(l@, r@, replies@),
{
    match render::plain(l, replies) {
        Err(e) => Err(e),
        Ok(a) => match render::plain(r, replies) {
            Err(e) => Err(e),
            Ok(b) => {
                let mut t = a;
                t.append(b.as_str());
                Ok(Value::Str(t))
            },
        },
    }
}

fn binary(op: BinOp, l: &Value, r: &Value, span: Span, replies: &Replies) -> (res: Result<
    Value,
    Stop,
>)
    ensures
        value_result(res) == binary_result(op, l@, r@, span, replies@),
{
    match op {
        BinOp::Eq => Ok(Value::Bool(l.loose_eq(r))),
        BinOp::Ne => Ok(Value::Bool(!l.loose_eq(r))),
        BinOp::Lt => compare(op, l, r, span),
        BinOp::Le => compare(op, l, r, span),
        BinOp::Gt => compare(op, l, r, span),
        BinOp::Ge => compare(op, l, r, span),
        BinOp::And => Ok(Value::Bool(callable::is_truthy(l) && callable::is_truthy(r))),
        BinOp::Or => Ok(Value::Bool(callable::is_truthy(l) || callable::is_truthy(r))),
        BinOp::Add => match (l, r) {
            (Value::Str(_), _) => concatenate(l, r, replies),
            (_, Value::Str(_)) => concatenate(l, r, replies),
            _ => arithmetic(op, l, r, span, replies),
        },
        _ => arithmetic(op, l, r, span, replies),
    }
}

/// Evaluate an expression against a scope.
pub fn eval_expr(expr: &Expr, scope: &Scope, replies: &Replies) -> (r: Result<Value, Stop>)
    ensures
        value_result(r) == evaluated(expr@, scope@, replies@),
    decreases expr,
{
    match expr {
        Expr::Literal(v, _) => Ok(v.clone()),
        Expr::Bareword(w, _) => Ok(Value::Str(w.clone())),
        Expr::Var(name, span) => eval_var(name, *span, scope),
        Expr::StrInterp(parts, span) => match eval_interp(
            Style::Cell,
            parts,
            *span,
            scope,
            replies,
        ) {
            Ok(t) => Ok(Value::Str(t)),
            Err(e) => Err(e),
        },
        Expr::Field { base, path, .. } => match eval_expr(base, scope, replies) {
            Ok(v) => Ok(eval_path(v, path)),
            Err(e) => Err(e),
        },
        Expr::Unary { op, operand, span } => match eval_expr(operand, scope, replies) {
            Ok(v) => match op {
                UnOp::Not => Ok(Value::Bool(!callable::is_truthy(&v))),
                UnOp::Neg => negate(v, *span),
            },
            Err(e) => Err(e),
        },
        Expr::Binary { op, lhs, rhs, span } => {
            let l = match eval_expr(lhs, scope, replies) {
                Ok(v) => v,
                Err(e) => {
                    return Err(e);
                },
            };
            // Short-circuit before evaluating the right side, so
            // `$x.a != null && $x.a > 5` is safe to write.
            if *op == BinOp::And && !callable::is_truthy(&l) {
                return Ok(Value::Bool(false));
            }
            if *op == BinOp::Or && callable::is_truthy(&l) {
                return Ok(Value::Bool(true));
            }
            match eval_expr(rhs, scope, replies) {
                Ok(r) => binary(*op, &l, &r, *span, replies),
                Err(e) => Err(e),
            }
        },
        Expr::Closure(_, span) => Err(
            Stop::Fail(
                ShellError::type_error("a closure is not a value here").with_span(*span).with_help(
                    "closures are only accepted where a command takes a function",
                ),
            ),
        ),
    }
}

/// A closure literal turned into a callable, so it drops straight into the
/// same slot as an inline JS function or a registered `@name`.
#[derive(Debug)]
pub struct NativeClosure {
    closure: Closure,
    /// The scope the closure was written in, so it can see session vars.
    captured: Scope,
}

pub struct NativeClosureView {
    pub closure: ClosureView,
    pub captured: ScopeSeq,
}

impl View for NativeClosure {
    type V = NativeClosureView;

    closed spec fn view(&self) -> NativeClosureView {
        NativeClosureView { closure: self.closure@, captured: self.captured@ }
    }
}

/// The captured scope with the parameters bound: the first to the item, extra
/// ones to null.
pub open spec fn with_params(scope: ScopeSeq, params: Seq<Seq<char>>, item: ValueView) -> ScopeSeq
    decreases params.len(),
{
    if params.len() == 0 {
        scope
    } else {
        value::inserted(
            with_params(scope, params.drop_last(), item),
            params.last(),
            if params.len() == 1 {
                item
            } else {
                ValueView::Null
            },
        )
    }
}

/// What a closure makes of an item.
pub open spec fn closure_result(
    c: NativeClosureView,
    item: ValueView,
    replies: ReplySeq,
) -> Result<ValueView, StopView> {
    evaluated(c.closure.body, with_params(c.captured, c.closure.params, item), replies)
}

impl NativeClosure {
    pub fn new(closure: Closure, captured: Scope) -> (r: Self)
        ensures
            r@ == (NativeClosureView { closure: closure@, captured: captured@ }),
    {
        NativeClosure { closure, captured }
    }

    /// Apply the closure to one pipeline item.
    pub fn call(&self, item: &Value, replies: &Replies) -> (r: Result<Value, Stop>)
        ensures
            value_result(r) == closure_result(self@, item@, replies@),
    {
        let ghost params = text::texts(self.closure.params@);
        let mut scope = self.captured.clone();
        let mut i: usize = 0;
        while i < self.closure.params.len()
            invariant
                i <= self.closure.params@.len(),
                params == text::texts(self.closure.params@),
                scope@ == with_params(self.captured@, params.take(i as int), item@),
            decreases self.closure.params@.len() - i,
        {
            proof {
                assert(params.take(i + 1).drop_last() =~= params.take(i as int));
                assert(params.take(i + 1).last() == self.closure.params@[i as int]@);
            }
            let v = if i == 0 { item.clone() } else { Value::Null };
            scope.insert(self.closure.params[i].clone(), v);
            i = i + 1;
        }
        proof {
            assert(params.take(params.len() as int) =~= params);
        }
        eval_expr(&self.closure.body, &scope, replies)
    }
}

impl Clone for NativeClosure {
    fn clone(&self) -> (r: Self)
        ensures
            r@ == self@,
    {
        NativeClosure { closure: self.closure.clone(), captured: self.captured.clone() }
    }
}

} // verus!
