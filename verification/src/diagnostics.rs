//! The diagnostics of a line can always be drawn: whatever is wrong with a
//! line, its carets stand under whole characters of it.

use crate::ask::{ReplySeq, StopView};
use crate::ast;
use crate::ast::{ArgView, CallView, ExprView, PipelineView, RedirectsView};
use crate::error;
use crate::error::{ErrorView, Span};
use crate::lex;
use crate::lex::{Class, InterpPartView, Op, StepView, TokenKindView, TokenView};
use crate::parse;
use crate::text;
use vstd::prelude::*;

verus! {

/// Does a span stand between whole characters of a line?
pub open spec fn fits(s: Seq<char>, span: Span) -> bool {
    error::on_boundary(s, span.start as int) && error::on_boundary(s, span.end as int)
}

pub open spec fn tokens_fit(s: Seq<char>, ts: Seq<TokenView>) -> bool {
    forall|k: int| 0 <= k < ts.len() ==> fits(s, (#[trigger] ts[k]).span)
}

/// A stop that can be drawn, where it is a failure.
pub open spec fn stop_fits(s: Seq<char>, stop: StopView) -> bool {
    stop matches StopView::Fail(e) ==> error::drawable(e, s)
}

proof fn offset_is_a_boundary(s: Seq<char>, i: int)
    requires
        0 <= i <= s.len(),
        text::byte_len(s) <= u32::MAX,
    ensures
        text::byte_offset(s, i) <= u32::MAX,
        error::on_boundary(s, text::byte_offset(s, i) as int),
{
    text::byte_offset_end(s);
    text::byte_offset_monotone(s, i, s.len() as int);
    if i < s.len() {
        text::byte_offset_step(s, i);
    }
    text::floor_index_is(s, text::byte_offset(s, i) as int, i);
}

proof fn span_of_fits(s: Seq<char>, i: int, j: int)
    requires
        0 <= i <= s.len(),
        0 <= j <= s.len(),
        text::byte_len(s) <= u32::MAX,
    ensures
        fits(s, lex::span_of(s, i, j)),
{
    offset_is_a_boundary(s, i);
    offset_is_a_boundary(s, j);
}

proof fn interp_string_fits(
    s: Seq<char>,
    i: int,
    j: int,
    parts: Seq<InterpPartView>,
    lit: Seq<char>,
)
    requires
        0 <= i <= s.len(),
        0 <= j <= s.len(),
        text::byte_len(s) <= u32::MAX,
    ensures
        lex::interp_string(s, i, j, parts, lit) matches Err(e) ==> stop_fits(s, e),
    decreases s.len() - j,
{
    span_of_fits(s, i, s.len() as int);
    if j < s.len() && s[j] != '"' {
        if s[j] == '\\' {
            if j + 1 < s.len() {
                match lex::escaped(s[j + 1]) {
                    Some(c) => interp_string_fits(s, i, j + 2, parts, lit.push(c)),
                    None => span_of_fits(s, j, j + 2),
                }
            }
        } else if s[j] == '$' {
            let end = lex::run_end(s, j + 1, Class::Var);
            lex::run_end_is(s, j + 1, Class::Var);
            if end <= j + 1 {
                interp_string_fits(s, i, j + 1, parts, lit.push('$'));
            } else {
                interp_string_fits(
                    s,
                    i,
                    end,
                    lex::with_literal(parts, lit).push(
                        InterpPartView::Var(s.subrange(j + 1, end)),
                    ),
                    Seq::empty(),
                );
            }
        } else {
            interp_string_fits(s, i, j + 1, parts, lit.push(s[j]));
        }
    }
}

/// A step of the lexer gives a token or a failure that fits the line.
proof fn lex_step_fits(s: Seq<char>, i: int, replies: ReplySeq)
    requires
        0 <= i < s.len(),
        text::byte_len(s) <= u32::MAX,
    ensures
        match lex::lex_step(s, i, replies) {
            StepView::Token(t, _) => fits(s, t.span),
            StepView::Stop(e) => stop_fits(s, e),
            _ => true,
        },
{
    lex::lex_step_progress(s, i, replies);
    lex::run_end_is(s, i, Class::Bareword);
    lex::run_end_is(s, i + 1, Class::Bareword);
    lex::run_end_is(s, i + 1, Class::Unquoted);
    lex::run_end_is(s, i + 1, Class::Var);
    if lex::has_at(s, i + 1, '-') {
        lex::run_end_is(s, i + 2, Class::Flag);
        span_of_fits(s, i, i + 2);
        span_of_fits(s, i, lex::run_end(s, i + 2, Class::Flag));
    }
    interp_string_fits(s, i, i + 1, Seq::empty(), Seq::empty());
    span_of_fits(s, i, i + 1);
    span_of_fits(s, i, s.len() as int);
    if text::digit(s[i]) || (s[i] == '-' && i + 1 < s.len() && text::digit(s[i + 1])) {
        lex::number_end_bounds(s, i);
        span_of_fits(s, i, lex::number_end(s, i).0);
    }
    match lex::lex_step(s, i, replies) {
        StepView::Token(t, j) => {
            span_of_fits(s, i, j);
        },
        _ => {},
    }
}

proof fn lexed_fits_from(s: Seq<char>, i: int, replies: ReplySeq)
    requires
        0 <= i <= s.len(),
        text::byte_len(s) <= u32::MAX,
    ensures
        match lex::lex_from(s, i, replies) {
            Ok(ts) => tokens_fit(s, ts),
            Err(e) => stop_fits(s, e),
        },
    decreases s.len() - i,
{
    if i < s.len() {
        lex_step_fits(s, i, replies);
        lex::lex_step_progress(s, i, replies);
        match lex::lex_step(s, i, replies) {
            StepView::Skip(j) => lexed_fits_from(s, j, replies),
            StepView::Token(t, j) => {
                lexed_fits_from(s, j, replies);
                match lex::lex_from(s, j, replies) {
                    Ok(rest) => {
                        let all = seq![t] + rest;
                        assert forall|k: int| 0 <= k < all.len() implies fits(
                            s,
                            (#[trigger] all[k]).span,
                        ) by {
                            if k > 0 {
                                assert(all[k] == rest[k - 1]);
                            }
                        }
                    },
                    Err(_) => {},
                }
            },
            _ => {},
        }
    }
}

/// The start of a line is a place in it.
proof fn nowhere_fits(s: Seq<char>)
    ensures
        fits(s, Span { start: 0, end: 0 }),
{
    if text::byte_len(s) > 0 {
        assert(s.take(0) =~= Seq::empty());
        if s.len() > 0 {
            text::byte_offset_step(s, 0);
            text::floor_index_is(s, 0, 0);
        }
    }
}

proof fn primary_fits(s: Seq<char>, ts: Seq<TokenView>, p: int, replies: ReplySeq)
    requires
        tokens_fit(s, ts),
    ensures
        parse::primary(ts, p, replies).0 matches Err(e) ==> stop_fits(s, e),
    decreases ts.len() - p, 0nat,
{
    nowhere_fits(s);
    if 0 <= p < ts.len() {
        let t = ts[p];
        assert(fits(s, t.span));
        if t.kind == TokenKindView::Op(Op::LParen) {
            operator_expr_fits(s, ts, p + 1, 0, replies);
            let (inner, q) = parse::operator_expr(ts, p + 1, 0, replies);
            if inner is Ok && 0 <= q < ts.len() {
                assert(fits(s, ts[q].span));
            }
        }
    }
}

proof fn accessors_fit(s: Seq<char>, ts: Seq<TokenView>, base: ExprView, p: int)
    requires
        tokens_fit(s, ts),
    ensures
        parse::accessors(ts, base, p).0 matches Err(e) ==> stop_fits(s, e),
    decreases ts.len() - p,
{
    if 0 <= p < ts.len() {
        assert(fits(s, ts[p].span));
        match ts[p].kind {
            TokenKindView::Bareword(w) => {
                if w.len() > 0 && w[0] == '.' && parse::field_path(w).len() > 0 {
                    accessors_fit(
                        s,
                        ts,
                        ExprView::Field {
                            base: Box::new(base),
                            path: parse::field_path(w),
                            span: error::merged(ast::span_of_expr(base), ts[p].span),
                        },
                        p + 1,
                    );
                }
            },
            _ => {},
        }
    }
}

proof fn unary_fits(s: Seq<char>, ts: Seq<TokenView>, p: int, replies: ReplySeq)
    requires
        tokens_fit(s, ts),
    ensures
        parse::unary(ts, p, replies).0 matches Err(e) ==> stop_fits(s, e),
    decreases ts.len() - p, 2nat,
{
    if 0 <= p < ts.len() && parse::prefix_op(ts[p].kind) is Some {
        unary_fits(s, ts, p + 1, replies);
    } else {
        primary_fits(s, ts, p, replies);
        let (first, q) = parse::primary(ts, p, replies);
        if first is Ok {
            accessors_fit(s, ts, first->Ok_0, q);
        }
        assert(parse::postfix(ts, p, replies).0 matches Err(e) ==> stop_fits(s, e));
    }
}

proof fn operator_rest_fits(
    s: Seq<char>,
    ts: Seq<TokenView>,
    lhs: ExprView,
    p: int,
    min_bp: u8,
    replies: ReplySeq,
)
    requires
        tokens_fit(s, ts),
    ensures
        parse::operator_rest(ts, lhs, p, min_bp, replies).0 matches Err(e) ==> stop_fits(s, e),
    decreases ts.len() - p, 3nat,
{
    match parse::infix_at(ts, p, min_bp) {
        None => {},
        Some((bin, bp)) => {
            operator_expr_fits(s, ts, p + 1, (bp + 1) as u8, replies);
            let (right, q) = parse::operator_expr(ts, p + 1, (bp + 1) as u8, replies);
            if right is Ok && p < q <= ts.len() {
                let rhs = right->Ok_0;
                operator_rest_fits(
                    s,
                    ts,
                    ExprView::Binary {
                        op: bin,
                        lhs: Box::new(lhs),
                        rhs: Box::new(rhs),
                        span: error::merged(
                            ast::span_of_expr(lhs),
                            ast::span_of_expr(rhs),
                        ),
                    },
                    q,
                    min_bp,
                    replies,
                );
            }
        },
    }
}

proof fn operator_expr_fits(
    s: Seq<char>,
    ts: Seq<TokenView>,
    p: int,
    min_bp: u8,
    replies: ReplySeq,
)
    requires
        tokens_fit(s, ts),
    ensures
        parse::operator_expr(ts, p, min_bp, replies).0 matches Err(e) ==> stop_fits(s, e),
    decreases ts.len() - p, 4nat,
{
    unary_fits(s, ts, p, replies);
    let (first, q) = parse::unary(ts, p, replies);
    if first is Ok && p < q <= ts.len() {
        operator_rest_fits(s, ts, first->Ok_0, q, min_bp, replies);
    }
}

proof fn closure_params_fit(
    s: Seq<char>,
    ts: Seq<TokenView>,
    p: int,
    params: Seq<Seq<char>>,
    open: Span,
    replies: ReplySeq,
)
    requires
        tokens_fit(s, ts),
        fits(s, open),
    ensures
        parse::closure_params(ts, p, params, open, replies).0 matches Err(e) ==> stop_fits(s, e),
    decreases ts.len() - p,
{
    if 0 <= p < ts.len() {
        assert(fits(s, ts[p].span));
        match ts[p].kind {
            TokenKindView::Bareword(name) => closure_params_fit(
                s,
                ts,
                p + 1,
                params.push(name),
                open,
                replies,
            ),
            TokenKindView::Var(name) => closure_params_fit(
                s,
                ts,
                p + 1,
                params.push(name),
                open,
                replies,
            ),
            _ => {},
        }
    }
}

proof fn argument_fits(s: Seq<char>, ts: Seq<TokenView>, p: int, replies: ReplySeq)
    requires
        tokens_fit(s, ts),
    ensures
        parse::argument(ts, p, replies).0 matches Err(e) ==> stop_fits(s, e),
{
    nowhere_fits(s);
    if 0 <= p < ts.len() {
        assert(fits(s, ts[p].span));
        if ts[p].kind == TokenKindView::Op(Op::LBrace) {
            closure_params_fit(s, ts, p + 2, Seq::empty(), ts[p].span, replies);
            let (head, q) = parse::closure_head(ts, p, replies);
            if head is Ok {
                operator_expr_fits(s, ts, q, 0, replies);
                let (body, r) = parse::operator_expr(ts, q, 0, replies);
                if body is Ok && 0 <= r < ts.len() {
                    assert(fits(s, ts[r].span));
                }
            }
        }
    }
}

proof fn arguments_fit(
    s: Seq<char>,
    ts: Seq<TokenView>,
    p: int,
    call: CallView,
    replies: ReplySeq,
)
    requires
        tokens_fit(s, ts),
    ensures
        parse::arguments(ts, p, call, replies).0 matches Err(e) ==> stop_fits(s, e),
    decreases ts.len() - p,
{
    if 0 <= p < ts.len() {
        let t = ts[p];
        assert(fits(s, t.span));
        match t.kind {
            TokenKindView::Pipe => {},
            TokenKindView::Semi => {},
            TokenKindView::Op(Op::Lt) => {},
            TokenKindView::Op(Op::Gt) => {},
            TokenKindView::Reserved(_) => {},
            TokenKindView::Flag { name, long, has_eq } => {
                if has_eq {
                    argument_fits(s, ts, p + 1, replies);
                    let (v, q) = parse::argument(ts, p + 1, replies);
                    if v is Ok && p < q <= ts.len() {
                        let x = v->Ok_0;
                        let span = error::merged(t.span, ast::span_of_expr(x));
                        arguments_fit(
                            s,
                            ts,
                            q,
                            parse::with_arg(
                                call,
                                ArgView::Flag { name, long, span, value: Some(x) },
                                span,
                            ),
                            replies,
                        );
                    }
                } else {
                    arguments_fit(
                        s,
                        ts,
                        p + 1,
                        parse::with_arg(
                            call,
                            ArgView::Flag { name, long, span: t.span, value: None },
                            t.span,
                        ),
                        replies,
                    );
                }
            },
            _ => {
                argument_fits(s, ts, p, replies);
                let (v, q) = parse::argument(ts, p, replies);
                if v is Ok && p < q <= ts.len() {
                    let x = v->Ok_0;
                    arguments_fit(
                        s,
                        ts,
                        q,
                        parse::with_arg(
                            call,
                            ArgView::Positional(x),
                            ast::span_of_expr(x),
                        ),
                        replies,
                    );
                }
            },
        }
    }
}

proof fn call_fits(s: Seq<char>, ts: Seq<TokenView>, p: int, replies: ReplySeq)
    requires
        tokens_fit(s, ts),
    ensures
        parse::call(ts, p, replies).0 matches Err(e) ==> stop_fits(s, e),
{
    nowhere_fits(s);
    if 0 <= p < ts.len() {
        assert(fits(s, ts[p].span));
    }
    let q = parse::words_end(ts, p);
    if q > p {
        arguments_fit(
            s,
            ts,
            q,
            CallView {
                words: parse::words_between(ts, p, q),
                args: Seq::empty(),
                span: error::merged(ts[p].span, ts[q - 1].span),
            },
            replies,
        );
    }
}

proof fn redirects_fit(
    s: Seq<char>,
    ts: Seq<TokenView>,
    p: int,
    got: RedirectsView,
    replies: ReplySeq,
)
    requires
        tokens_fit(s, ts),
    ensures
        parse::redirects_from(ts, p, got, replies).0 matches Err(e) ==> stop_fits(s, e),
    decreases ts.len() - p,
{
    if 0 <= p < ts.len() {
        assert(fits(s, ts[p].span));
        match parse::arrow_at(ts, p) {
            Some((arrow, q)) => {
                argument_fits(s, ts, q, replies);
                let (target, r) = parse::argument(ts, q, replies);
                if target is Ok && p < r <= ts.len() {
                    redirects_fit(
                        s,
                        ts,
                        r,
                        parse::with_redirect(got, arrow, target->Ok_0),
                        replies,
                    );
                }
            },
            None => {},
        }
    }
}

pub open spec fn all_drawable(s: Seq<char>, errors: Seq<ErrorView>) -> bool {
    forall|k: int| 0 <= k < errors.len() ==> error::drawable(#[trigger] errors[k], s)
}

proof fn pipeline_fits(
    s: Seq<char>,
    ts: Seq<TokenView>,
    p: int,
    calls: Seq<CallView>,
    errors: Seq<ErrorView>,
    replies: ReplySeq,
)
    requires
        tokens_fit(s, ts),
        all_drawable(s, errors),
    ensures
        parse::pipeline_calls(ts, p, calls, errors, replies).0 matches Ok((_, _, more))
            ==> all_drawable(s, more),
    decreases ts.len() - p,
{
    call_fits(s, ts, p, replies);
    let end = parse::call(ts, p, replies).1;
    redirects_fit(s, ts, end, RedirectsView::none(), replies);
    let (one, q) = parse::redirected_call(ts, p, replies);
    if !(one matches Err(StopView::Need(_))) {
        let stop = if one is Err {
            parse::synced(ts, q)
        } else {
            q
        };
        let more_calls = if one is Ok {
            calls.push(one->Ok_0.0)
        } else {
            calls
        };
        let more_errors = match one {
            Err(StopView::Fail(e)) => errors.push(e),
            _ => errors,
        };
        assert(all_drawable(s, more_errors));
        if p <= stop < ts.len() && ts[stop].kind == TokenKindView::Pipe {
            pipeline_fits(s, ts, stop + 1, more_calls, more_errors, replies);
        }
    }
}

proof fn line_fits(
    s: Seq<char>,
    ts: Seq<TokenView>,
    p: int,
    pipelines: Seq<PipelineView>,
    errors: Seq<ErrorView>,
    replies: ReplySeq,
)
    requires
        tokens_fit(s, ts),
        all_drawable(s, errors),
    ensures
        parse::line_from(ts, p, pipelines, errors, replies) matches Ok(o) ==> all_drawable(
            s,
            o.errors,
        ),
    decreases ts.len() - p,
{
    if 0 <= p < ts.len() {
        if ts[p].kind == TokenKindView::Semi {
            line_fits(s, ts, p + 1, pipelines, errors, replies);
        } else {
            pipeline_fits(s, ts, p, Seq::empty(), errors, replies);
            let (read, q) = parse::pipeline_calls(ts, p, Seq::empty(), errors, replies);
            if read is Ok && p < q <= ts.len() {
                let (calls, redirects, more) = read->Ok_0;
                let next = match parse::pipeline_of(calls, redirects) {
                    Some(pl) => pipelines.push(pl),
                    None => pipelines,
                };
                line_fits(s, ts, q, next, more, replies);
            }
        }
    }
}

/// Every diagnostic of a line can be drawn against that line.
pub proof fn diagnostics_can_be_drawn(s: Seq<char>, replies: ReplySeq)
    requires
        text::byte_len(s) <= u32::MAX,
    ensures
        parse::parsed(s, replies) matches Ok(o) ==> all_drawable(s, o.errors),
{
    lexed_fits_from(s, 0, replies);
    match lex::lexed(s, replies) {
        Ok(ts) => line_fits(s, ts, 0, Seq::empty(), Seq::empty(), replies),
        _ => {},
    }
}

} // verus!
