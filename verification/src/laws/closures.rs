//! What closures make of the items that they are given, and what the words of
//! their bodies stand for.

use crate::ask::{ReplySeq, StopView};
use crate::ast::{ClosureView, ExprView};
use crate::error::Span;
use crate::expr;
use crate::expr::{NativeClosureView, ScopeSeq, Style};
use crate::laws::evaluation;
use crate::lex;
use crate::lex::{Class, InterpPartView, Op, StepView, TokenKindView, TokenView};
use crate::parse;
use crate::spelling;
use crate::text;
use crate::value;
use crate::value::ValueView;
use vstd::prelude::*;

verus! {

/// A field of a record is the value that stands under its name.
pub proof fn fields_are_read_by_name(
    base: ExprView,
    fields: Seq<(Seq<char>, ValueView)>,
    i: int,
    span: Span,
    scope: ScopeSeq,
    replies: ReplySeq,
)
    requires
        expr::evaluated(base, scope, replies) == Ok::<ValueView, StopView>(
            ValueView::Record(fields),
        ),
        value::names_distinct(fields),
        0 <= i < fields.len(),
    ensures
        expr::evaluated(
            ExprView::Field { base: Box::new(base), path: seq![fields[i].0], span },
            scope,
            replies,
        ) == Ok::<ValueView, StopView>(fields[i].1),
{
    let path = seq![fields[i].0];
    value::position_is_first(fields, fields[i].0);
    let p = value::position(fields, fields[i].0)->0;
    if p != i {
        assert(fields[p].0 == fields[i].0);
    }
    assert(path.drop_last() =~= Seq::empty());
    assert(expr::path_value(ValueView::Record(fields), path.drop_last()) == ValueView::Record(
        fields,
    ));
    assert(path.last() == fields[i].0);
}

/// A field that is not there is null, but for the length of what has one.
pub proof fn missing_fields_are_null_but_the_length(
    base: ExprView,
    v: ValueView,
    key: Seq<char>,
    span: Span,
    scope: ScopeSeq,
    replies: ReplySeq,
)
    requires
        expr::evaluated(base, scope, replies) == Ok::<ValueView, StopView>(v),
        v matches ValueView::Record(fields) ==> forall|i: int|
            0 <= i < fields.len() ==> (#[trigger] fields[i]).0 != key,
    ensures
        ({
            let r = expr::evaluated(
                ExprView::Field { base: Box::new(base), path: seq![key], span },
                scope,
                replies,
            );
            &&& key != "length"@ ==> r == Ok::<ValueView, StopView>(ValueView::Null)
            &&& key == "length"@ ==> match v {
                ValueView::Str(s) => s.len() <= i64::MAX ==> evaluation::comes_to(
                    r,
                    s.len() as int,
                ),
                ValueView::List(items) => items.len() <= i64::MAX ==> evaluation::comes_to(
                    r,
                    items.len() as int,
                ),
                ValueView::Record(fields) => fields.len() <= i64::MAX ==> evaluation::comes_to(
                    r,
                    fields.len() as int,
                ),
                _ => r == Ok::<ValueView, StopView>(ValueView::Null),
            }
        }),
{
    let path = seq![key];
    match v {
        ValueView::Record(fields) => {
            value::position_is_first(fields, key);
        },
        _ => {},
    }
    assert(path.drop_last() =~= Seq::empty());
    assert(expr::path_value(v, path.drop_last()) == v);
    assert(path.last() == key);
}

/// A path goes from field to field.
pub proof fn paths_go_field_by_field(
    base: ExprView,
    inner: ExprView,
    path: Seq<Seq<char>>,
    key: Seq<char>,
    span: Span,
    scope: ScopeSeq,
    replies: ReplySeq,
)
    requires
        path.len() > 0,
        inner == (ExprView::Field { base: Box::new(base), path, span }),
        expr::evaluated(base, scope, replies) is Ok,
    ensures
        expr::evaluated(
            ExprView::Field { base: Box::new(base), path: path.push(key), span },
            scope,
            replies,
        ) == expr::evaluated(
            ExprView::Field { base: Box::new(inner), path: seq![key], span },
            scope,
            replies,
        ),
{
    let v = expr::evaluated(base, scope, replies)->Ok_0;
    assert(path.push(key).drop_last() =~= path);
    let one = seq![key];
    assert(one.drop_last() =~= Seq::empty());
    assert(one.last() == key);
    let w = expr::path_value(v, path);
    assert(expr::path_value(w, one.drop_last()) == w);
    assert(expr::evaluated(inner, scope, replies) == Ok::<ValueView, StopView>(w));
}

/// The first parameter of a closure is the item; further ones are null; every
/// other name means what it meant where the closure was written.
pub proof fn closures_are_given_the_item(
    captured: ScopeSeq,
    params: Seq<Seq<char>>,
    item: ValueView,
    name: Seq<char>,
    span: Span,
    replies: ReplySeq,
)
    requires
        value::names_distinct(captured),
        params.no_duplicates(),
    ensures
        ({
            let c = NativeClosureView {
                closure: ClosureView { params, body: ExprView::Var(name, span) },
                captured,
            };
            let r = expr::closure_result(c, item, replies);
            &&& params.len() > 0 && name == params[0] ==> r == Ok::<ValueView, StopView>(item)
            &&& params.len() > 0 && name != params[0] && params.contains(name) ==> r == Ok::<
                ValueView,
                StopView,
            >(ValueView::Null)
            &&& !params.contains(name) ==> forall|i: int|
                0 <= i < captured.len() && (#[trigger] captured[i]).0 == name ==> r == Ok::<
                    ValueView,
                    StopView,
                >(captured[i].1)
            &&& !params.contains(name) && (forall|i: int|
                0 <= i < captured.len() ==> (#[trigger] captured[i]).0 != name) ==> r is Err
        }),
{
    bound_names(captured, params, item, name);
    value::position_is_first(captured, name);
    if !params.contains(name) {
        assert forall|i: int|
            0 <= i < captured.len() && (#[trigger] captured[i]).0 == name implies value::lookup(
            captured,
            name,
        ) == Some(captured[i].1) by {
            let p = value::position(captured, name)->0;
            if p != i {
                assert(captured[p].0 == captured[i].0);
            }
        }
    }
}

proof fn bound_names(captured: ScopeSeq, params: Seq<Seq<char>>, item: ValueView, name: Seq<char>)
    requires
        value::names_distinct(captured),
        params.no_duplicates(),
    ensures
        ({
            let s = expr::with_params(captured, params, item);
            &&& value::names_distinct(s)
            &&& value::lookup(s, name) == if params.len() > 0 && name == params[0] {
                Some(item)
            } else if params.contains(name) {
                Some(ValueView::Null)
            } else {
                value::lookup(captured, name)
            }
        }),
    decreases params.len(),
{
    if params.len() > 0 {
        let init = params.drop_last();
        let last = params.last();
        bound_names(captured, init, item, name);
        let before = expr::with_params(captured, init, item);
        let v = if params.len() == 1 {
            item
        } else {
            ValueView::Null
        };
        assert(params.contains(last)) by {
            assert(params[params.len() - 1] == last);
        }
        if name == last {
            assert(last.push('x').len() != last.len());
            value::fields_behave_as_a_map(before, last, v, last.push('x'));
            if params.len() > 1 {
                assert(params[0] != params[params.len() - 1]);
            }
        } else {
            value::fields_behave_as_a_map(before, last, v, name);
            assert(init.contains(name) <==> params.contains(name)) by {
                if params.contains(name) {
                    let k = choose|k: int| 0 <= k < params.len() && params[k] == name;
                    assert(init[k] == name);
                }
                if init.contains(name) {
                    let k = choose|k: int| 0 <= k < init.len() && init[k] == name;
                    assert(params[k] == name);
                }
            }
            if params.len() > 1 {
                assert(init[0] == params[0]);
            }
        }
    } else {
        assert(!params.contains(name));
    }
}

/// A word of a dot and a name is the path of that name.
proof fn dotted(name: Seq<char>)
    requires
        name.len() > 0,
        forall|i: int| 0 <= i < name.len() ==> name[i] != '.',
    ensures
        parse::field_path(seq!['.'] + name) == seq![name],
        parse::path_words(seq!['.'] + name) == (Seq::<Seq<char>>::empty(), name),
    decreases name.len(),
{
    let w = seq!['.'] + name;
    let init = name.drop_last();
    assert(w.drop_last() =~= seq!['.'] + init);
    assert(w.last() == name.last());
    if init.len() == 0 {
        let dot = seq!['.'];
        assert(w.drop_last() =~= dot);
        assert(dot.drop_last() =~= Seq::empty());
        assert(parse::path_words(dot.drop_last()) == (
            Seq::<Seq<char>>::empty(),
            Seq::<char>::empty(),
        ));
        assert(dot.last() == '.');
        assert(parse::path_words(dot) == (Seq::<Seq<char>>::empty(), Seq::<char>::empty()));
        assert(Seq::<char>::empty().push(name.last()) =~= name);
    } else {
        assert forall|i: int| 0 <= i < init.len() implies init[i] != '.' by {
            assert(init[i] == name[i]);
        }
        dotted(init);
        assert(init.push(name.last()) =~= name);
    }
    assert(Seq::<Seq<char>>::empty().push(name) =~= seq![name]);
}

/// The tokens of `{|o| $o.a OP $o.b}`.
pub open spec fn is_field_closure(
    ts: Seq<TokenView>,
    o: Seq<char>,
    a: Seq<char>,
    op: Op,
    b: Seq<char>,
) -> bool {
    &&& ts.len() == 10
    &&& ts[0].kind == TokenKindView::Op(Op::LBrace)
    &&& ts[1].kind == TokenKindView::Pipe
    &&& ts[2].kind == TokenKindView::Bareword(o)
    &&& ts[3].kind == TokenKindView::Pipe
    &&& ts[4].kind == TokenKindView::Var(o)
    &&& ts[5].kind == TokenKindView::Bareword(seq!['.'] + a)
    &&& ts[6].kind == TokenKindView::Op(op)
    &&& ts[7].kind == TokenKindView::Var(o)
    &&& ts[8].kind == TokenKindView::Bareword(seq!['.'] + b)
    &&& ts[9].kind == TokenKindView::Op(Op::RBrace)
}

pub open spec fn plain_name(name: Seq<char>) -> bool {
    name.len() > 0 && forall|i: int| 0 <= i < name.len() ==> name[i] != '.'
}

/// `$o.name` at a place.
proof fn field_operand(ts: Seq<TokenView>, p: int, o: Seq<char>, name: Seq<char>, replies: ReplySeq) -> (e:
    ExprView)
    requires
        0 <= p,
        p + 2 < ts.len(),
        ts[p].kind == TokenKindView::Var(o),
        ts[p + 1].kind == TokenKindView::Bareword(seq!['.'] + name),
        ts[p + 2].kind is Op,
        plain_name(name),
    ensures
        parse::unary(ts, p, replies) == (Ok::<ExprView, StopView>(e), p + 2),
        e matches ExprView::Field { base, path, .. } && path == seq![name] && *base
            == ExprView::Var(o, ts[p].span),
{
    dotted(name);
    let w = seq!['.'] + name;
    assert(w[0] == '.');
    let base = ExprView::Var(o, ts[p].span);
    let e = ExprView::Field {
        base: Box::new(base),
        path: seq![name],
        span: crate::error::merged(crate::ast::span_of_expr(base), ts[p + 1].span),
    };
    assert(parse::primary(ts, p, replies) == (Ok::<ExprView, StopView>(base), p + 1));
    assert(parse::accessors(ts, e, p + 2) == (Ok::<ExprView, StopView>(e), p + 2));
    assert(parse::accessors(ts, base, p + 1) == (Ok::<ExprView, StopView>(e), p + 2));
    assert(parse::postfix(ts, p, replies) == (Ok::<ExprView, StopView>(e), p + 2));
    e
}

/// A closure of two fields, read from its tokens, makes of a record what the
/// operator makes of the two integers under those names: the difference is what has
/// to be added to the second to get the first.
pub proof fn closures_compute_on_fields(
    ts: Seq<TokenView>,
    o: Seq<char>,
    a: Seq<char>,
    op: Op,
    b: Seq<char>,
    fields: Seq<(Seq<char>, ValueView)>,
    i: int,
    j: int,
    x: i64,
    y: i64,
    captured: ScopeSeq,
    replies: ReplySeq,
)
    requires
        is_field_closure(ts, o, a, op, b),
        plain_name(a),
        plain_name(b),
        value::names_distinct(fields),
        value::names_distinct(captured),
        0 <= i < fields.len(),
        0 <= j < fields.len(),
        fields[i] == (a, ValueView::Int(x)),
        fields[j] == (b, ValueView::Int(y)),
        op == Op::Minus || op == Op::Plus || op == Op::Star || op == Op::Lt || op == Op::EqEq,
    ensures
        parse::argument(ts, 0, replies) matches (Ok(ExprView::Closure(c, _)), q) && q == 10 && {
            let r = expr::closure_result(
                NativeClosureView { closure: *c, captured },
                ValueView::Record(fields),
                replies,
            );
            &&& op == Op::Minus ==> evaluation::comes_to(r, x - y)
            &&& op == Op::Plus ==> evaluation::comes_to(r, x + y)
            &&& op == Op::Star ==> evaluation::comes_to(r, x * y)
            &&& op == Op::Lt ==> evaluation::says(r, x < y)
            &&& op == Op::EqEq ==> evaluation::says(r, x == y)
        },
{
    let params = Seq::<Seq<char>>::empty().push(o);
    assert(parse::closure_params(ts, 3, params, ts[0].span, replies) == (
        Ok::<Seq<Seq<char>>, StopView>(params),
        4int,
    ));
    assert(parse::closure_params(ts, 2, Seq::empty(), ts[0].span, replies) == (
        Ok::<Seq<Seq<char>>, StopView>(params),
        4int,
    ));
    let l = field_operand(ts, 4, o, a, replies);
    let r = field_operand(ts, 7, o, b, replies);
    let (bin, bp) = parse::infix(op)->0;
    assert(parse::operator_rest(ts, r, 9, (bp + 1) as u8, replies) == (
        Ok::<ExprView, StopView>(r),
        9int,
    ));
    assert(parse::operator_expr(ts, 7, (bp + 1) as u8, replies) == (
        Ok::<ExprView, StopView>(r),
        9int,
    ));
    let span = crate::error::merged(crate::ast::span_of_expr(l), crate::ast::span_of_expr(r));
    let body = evaluation::joined_by(bin, l, r, span);
    assert(parse::operator_rest(ts, body, 9, 0, replies) == (
        Ok::<ExprView, StopView>(body),
        9int,
    ));
    assert(parse::operator_rest(ts, l, 6, 0, replies) == (Ok::<ExprView, StopView>(body), 9int));
    assert(parse::operator_expr(ts, 4, 0, replies) == (Ok::<ExprView, StopView>(body), 9int));
    let c = ClosureView { params, body };
    let rec = ValueView::Record(fields);
    assert(params.no_duplicates());
    assert(params[0] == o);
    let scope = expr::with_params(captured, params, rec);
    bound_names(captured, params, rec, o);
    let lb = ExprView::Var(o, ts[4].span);
    let rb = ExprView::Var(o, ts[7].span);
    assert(expr::evaluated(lb, scope, replies) == Ok::<ValueView, StopView>(rec));
    assert(expr::evaluated(rb, scope, replies) == Ok::<ValueView, StopView>(rec));
    fields_are_read_by_name(lb, fields, i, l->Field_span, scope, replies);
    fields_are_read_by_name(rb, fields, j, r->Field_span, scope, replies);
    evaluation::integer_arithmetic_is_exact(l, r, x, y, span, scope, replies);
    evaluation::integer_comparisons_are_exact(l, r, x, y, span, scope, replies);
}

/// A text between single quotes is that text.
pub proof fn raw_strings_are_read_as_written(
    s: Seq<char>,
    i: int,
    t: Seq<char>,
    replies: ReplySeq,
)
    requires
        0 <= i,
        i + t.len() + 2 <= s.len(),
        s[i] == '\'',
        s.subrange(i + 1, i + 1 + t.len()) == t,
        s[i + 1 + t.len()] == '\'',
        forall|k: int| 0 <= k < t.len() ==> t[k] != '\'',
    ensures
        lex::lex_step(s, i, replies) matches StepView::Token(token, j) && j == i + t.len() + 2
            && token.kind == TokenKindView::StrRaw(t),
{
    let end = i + 1 + t.len();
    assert forall|k: int| i + 1 <= k < end implies lex::in_class(Class::Unquoted, #[trigger] s[k]) by {
        assert(s[k] == t[k - i - 1]);
    }
    spelling::run_is(s, i + 1, end, Class::Unquoted);
}

/// A name behind a dollar sign is the variable of that name, up to what cannot
/// stand in a name.
pub proof fn variables_are_read_as_written(
    s: Seq<char>,
    i: int,
    name: Seq<char>,
    replies: ReplySeq,
)
    requires
        0 <= i,
        i + 1 + name.len() <= s.len(),
        s[i] == '$',
        name.len() > 0,
        s.subrange(i + 1, i + 1 + name.len()) == name,
        forall|k: int| 0 <= k < name.len() ==> text::ascii_letter(#[trigger] name[k]),
        i + 1 + name.len() == s.len() || s[i + 1 + name.len()] == ' ' || s[i + 1 + name.len()]
            == '.',
    ensures
        lex::lex_step(s, i, replies) matches StepView::Token(token, j) && j == i + 1 + name.len()
            && token.kind == TokenKindView::Var(name),
{
    let end = i + 1 + name.len();
    assert forall|k: int| i + 1 <= k < end implies lex::in_class(Class::Var, #[trigger] s[k]) by {
        assert(s[k] == name[k - i - 1]);
    }
    spelling::run_is(s, i + 1, end, Class::Var);
}

/// How a character is written between double quotes.
pub open spec fn quoted(c: char) -> Seq<char> {
    if c == '\n' {
        seq!['\\', 'n']
    } else if c == '\t' {
        seq!['\\', 't']
    } else if c == '"' || c == '\\' || c == '$' {
        seq!['\\', c]
    } else {
        seq![c]
    }
}

/// The rest of a string, read from a place on.
proof fn quoted_rest(s: Seq<char>, i: int, j: int, t: Seq<char>, k: int, lit: Seq<char>)
    requires
        0 <= j,
        0 <= k <= t.len(),
        lit == t.take(k),
        j + quoted_text_from(t, k).len() + 1 <= s.len(),
        s.subrange(j, j + quoted_text_from(t, k).len() + 1) == quoted_text_from(t, k).push('"'),
    ensures
        lex::interp_string(s, i, j, Seq::empty(), lit) == Ok::<
            (Seq<InterpPartView>, int),
            StopView,
        >(
            (
                if t.len() > 0 {
                    seq![InterpPartView::Lit(t)]
                } else {
                    Seq::empty()
                },
                j + quoted_text_from(t, k).len() + 1,
            ),
        ),
    decreases t.len() - k,
{
    let rest = quoted_text_from(t, k);
    let w = rest.push('"');
    assert(s[j] == w[0]) by {
        assert(s.subrange(j, j + rest.len() + 1)[0] == s[j]);
    }
    if k == t.len() {
        assert(t.take(k) =~= t);
        assert(rest.len() == 0);
        assert(Seq::<InterpPartView>::empty().push(InterpPartView::Lit(t)) =~= seq![
            InterpPartView::Lit(t),
        ]);
    } else {
        let q = quoted(t[k]);
        let more = quoted_text_from(t, k + 1);
        assert(rest == q + more);
        assert(lit.push(t[k]) =~= t.take(k + 1));
        assert forall|m: int| 0 <= m < more.len() + 1 implies #[trigger] s.subrange(
            j + q.len(),
            j + q.len() + more.len() + 1,
        )[m] == more.push('"')[m] by {
            assert(s.subrange(j, j + rest.len() + 1)[m + q.len()] == s[j + q.len() + m]);
        }
        assert(s.subrange(j + q.len(), j + q.len() + more.len() + 1) =~= more.push('"'));
        quoted_rest(s, i, j + q.len(), t, k + 1, lit.push(t[k]));
        assert(w[0] == q[0]);
        if q.len() == 2 {
            assert(s[j + 1] == q[1]) by {
                assert(s.subrange(j, j + rest.len() + 1)[1] == s[j + 1]);
                assert(w[1] == q[1]);
            }
        }
    }
}

pub open spec fn quoted_text_from(t: Seq<char>, k: int) -> Seq<char>
    decreases t.len() - k,
{
    if !(0 <= k < t.len()) {
        Seq::empty()
    } else {
        quoted(t[k]) + quoted_text_from(t, k + 1)
    }
}

/// A text between double quotes, with its special characters escaped, is that text
/// and nothing else.
pub proof fn quoted_strings_are_read_as_written(
    t: Seq<char>,
    replies: ReplySeq,
    scope: ScopeSeq,
    span: Span,
)
    ensures
        ({
            let s = seq!['"'] + quoted_text_from(t, 0) + seq!['"'];
            &&& lex::lex_step(s, 0, replies) matches StepView::Token(token, j)
            &&& j == s.len()
            &&& token.kind matches TokenKindView::StrInterp(parts)
            &&& expr::interpolated(Style::Cell, parts, scope, span, replies) == Ok::<
                Seq<char>,
                StopView,
            >(t)
        }),
{
    let rest = quoted_text_from(t, 0);
    let s = seq!['"'] + rest + seq!['"'];
    assert(s.subrange(1, 1int + rest.len() + 1) =~= rest.push('"'));
    assert(t.take(0) =~= Seq::empty());
    quoted_rest(s, 0, 1, t, 0, Seq::empty());
    assert(s[0] == '"');
    reveal_with_fuel(expr::interpolated, 2);
    if t.len() > 0 {
        let parts = seq![InterpPartView::Lit(t)];
        assert(parts.drop_last() =~= Seq::empty());
        assert(Seq::<char>::empty() + t =~= t);
    } else {
        assert(t =~= Seq::empty());
    }
}

} // verus!
