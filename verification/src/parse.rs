//! Recursive-descent parser with recovery: on error it records a diagnostic
//! and syncs to the next `|` or `;`, so one line can produce multiple
//! diagnostics. Evaluation only proceeds when there are no diagnostics.

use crate::ask;
use crate::ask::{Query, QueryView, Replies, ReplySeq, Stop, StopView};
use crate::ast;
use crate::ast::{
    Arg, ArgView, BinOp, Call, CallView, Closure, ClosureView, Expr, ExprView, Line, LineView,
    Output, OutputView, Pipeline, PipelineView, Redirects, RedirectsView, Spanned, UnOp, WordView,
};
use crate::error;
use crate::error::{ErrorKind, ErrorView, ShellError, Span};
use crate::lex;
use crate::lex::{Op, Token, TokenKind, TokenKindView, TokenView};
use crate::text;
use crate::value::{Value, ValueView};
use vstd::prelude::*;

verus! {

broadcast use crate::value::value_view_cases;

/// A line and the diagnostics that came up while reading it.
#[derive(Debug)]
pub struct ParseOutcome {
    pub line: Line,
    pub errors: Vec<ShellError>,
}

pub struct OutcomeView {
    pub line: LineView,
    pub errors: Seq<ErrorView>,
}

pub open spec fn errors_view(errors: Seq<ShellError>) -> Seq<ErrorView> {
    errors.map_values(|e: ShellError| e@)
}

impl View for ParseOutcome {
    type V = OutcomeView;

    open spec fn view(&self) -> OutcomeView {
        OutcomeView { line: self.line@, errors: errors_view(self.errors@) }
    }
}

/// Operator → (syntax operator, binding power). `None` for grouping, `!` and
/// `=`, which are never infix. Binding powers, loosest first:
/// `||` < `&&` < comparison < `+ -` < `* / %`.
pub open spec fn infix(op: Op) -> Option<(BinOp, u8)> {
    match op {
        Op::OrOr => Some((BinOp::Or, 1)),
        Op::AndAnd => Some((BinOp::And, 2)),
        Op::EqEq => Some((BinOp::Eq, 3)),
        Op::Ne => Some((BinOp::Ne, 3)),
        Op::Lt => Some((BinOp::Lt, 3)),
        Op::Le => Some((BinOp::Le, 3)),
        Op::Gt => Some((BinOp::Gt, 3)),
        Op::Ge => Some((BinOp::Ge, 3)),
        Op::Plus => Some((BinOp::Add, 4)),
        Op::Minus => Some((BinOp::Sub, 4)),
        Op::Star => Some((BinOp::Mul, 5)),
        Op::Slash => Some((BinOp::Div, 5)),
        Op::Percent => Some((BinOp::Rem, 5)),
        _ => None,
    }
}

/// How a token is called in a diagnostic.
pub open spec fn described(kind: TokenKindView, replies: ReplySeq) -> Result<Seq<char>, StopView> {
    match kind {
        TokenKindView::Bareword(w) => Ok("`"@ + w + "`"@),
        TokenKindView::Int(n) => Ok("`"@ + text::decimal_text(n as int) + "`"@),
        TokenKindView::Float(f) => match ask::text_answer(
            replies,
            QueryView::ShowFloat(f),
        ) {
            Ok(t) => Ok("`"@ + t + "`"@),
            Err(e) => Err(e),
        },
        TokenKindView::StrRaw(_) => Ok("a string"@),
        TokenKindView::StrInterp(_) => Ok("a string"@),
        TokenKindView::Var(v) => Ok("`$"@ + v + "`"@),
        TokenKindView::Flag { name, .. } => Ok("flag `--"@ + name + "`"@),
        TokenKindView::Pipe => Ok("`|`"@),
        TokenKindView::Semi => Ok("`;`"@),
        TokenKindView::Op(op) => Ok("`"@ + lex::op_text(op) + "`"@),
        TokenKindView::Reserved(r) => Ok("`"@ + r + "`"@),
    }
}

pub open spec fn fail_at(msg: Seq<char>, span: Span) -> StopView {
    lex::parse_error(msg, span)
}

/// The diagnostic for a token that is not what was expected.
pub open spec fn unexpected(what: Seq<char>, t: TokenView, replies: ReplySeq) -> StopView {
    match described(t.kind, replies) {
        Ok(d) => fail_at(what + d, t.span),
        Err(e) => e,
    }
}

/// What came of reading something: it or why not, and the place where
/// reading stopped.
pub type Read<T> = (Result<T, StopView>, int);

/// The dotted words of a field path: what stands between the dots, empty
/// pieces left out. The first component holds the finished words, the second
/// the one being read.
pub open spec fn path_words(w: Seq<char>) -> (Seq<Seq<char>>, Seq<char>)
    decreases w.len(),
{
    if w.len() == 0 {
        (Seq::empty(), Seq::empty())
    } else {
        let (done, word) = path_words(w.drop_last());
        if w.last() == '.' {
            (with_word(done, word), Seq::empty())
        } else {
            (done, word.push(w.last()))
        }
    }
}

pub open spec fn with_word(done: Seq<Seq<char>>, word: Seq<char>) -> Seq<Seq<char>> {
    if word.len() > 0 {
        done.push(word)
    } else {
        done
    }
}

pub open spec fn field_path(w: Seq<char>) -> Seq<Seq<char>> {
    with_word(path_words(w).0, path_words(w).1)
}

/// A literal, variable, word or parenthesised expression.
pub open spec fn primary(ts: Seq<TokenView>, p: int, replies: ReplySeq) -> Read<ExprView>
    decreases ts.len() - p, 0nat,
{
    if !(0 <= p < ts.len()) {
        (Err(fail_at("expected a value"@, Span { start: 0, end: 0 })), p)
    } else {
        let t = ts[p];
        match t.kind {
            TokenKindView::Int(n) => (Ok(ExprView::Literal(ValueView::Int(n), t.span)), p + 1),
            TokenKindView::Float(f) => (
                Ok(ExprView::Literal(ValueView::Float(f), t.span)),
                p + 1,
            ),
            TokenKindView::StrRaw(s) => (
                Ok(ExprView::Literal(ValueView::Str(s), t.span)),
                p + 1,
            ),
            TokenKindView::StrInterp(parts) => (Ok(ExprView::StrInterp(parts, t.span)), p + 1),
            TokenKindView::Var(name) => (Ok(ExprView::Var(name, t.span)), p + 1),
            TokenKindView::Bareword(w) => (
                Ok(
                    if w == "true"@ {
                        ExprView::Literal(ValueView::Bool(true), t.span)
                    } else if w == "false"@ {
                        ExprView::Literal(ValueView::Bool(false), t.span)
                    } else if w == "null"@ {
                        ExprView::Literal(ValueView::Null, t.span)
                    } else {
                        ExprView::Bareword(w, t.span)
                    },
                ),
                p + 1,
            ),
            TokenKindView::Op(Op::LParen) => {
                let (inner, q) = operator_expr(ts, p + 1, 0, replies);
                match inner {
                    Err(e) => (Err(e), q),
                    Ok(x) => if !(0 <= q < ts.len()) {
                        (Err(fail_at("expected `)`"@, t.span)), q)
                    } else if ts[q].kind == TokenKindView::Op(Op::RParen) {
                        (Ok(x), q + 1)
                    } else {
                        (Err(unexpected("expected `)`, found "@, ts[q], replies)), q + 1)
                    },
                }
            },
            TokenKindView::Op(Op::Assign) => (
                Err(
                    StopView::Fail(
                        ErrorView::at(
                            ErrorKind::Parse,
                            "`=` is not an operator here"@,
                            t.span,
                        ).helped("use `==` to compare"@),
                    ),
                ),
                p + 1,
            ),
            _ => (Err(unexpected("expected a value, found "@, t, replies)), p + 1),
        }
    }
}

/// The `.field` accessors that follow an expression. The lexer folds `.` into
/// barewords, so `$x.a.b` arrives as `$x` followed by the word `.a.b`.
pub open spec fn accessors(ts: Seq<TokenView>, base: ExprView, p: int) -> Read<ExprView>
    decreases ts.len() - p,
{
    if !(0 <= p < ts.len()) {
        (Ok(base), p)
    } else {
        match ts[p].kind {
            TokenKindView::Bareword(w) => if w.len() == 0 || w[0] != '.' {
                (Ok(base), p)
            } else if field_path(w).len() == 0 {
                (Err(fail_at("expected a field name after `.`"@, ts[p].span)), p + 1)
            } else {
                accessors(
                    ts,
                    ExprView::Field {
                        base: Box::new(base),
                        path: field_path(w),
                        span: error::merged(ast::span_of_expr(base), ts[p].span),
                    },
                    p + 1,
                )
            },
            _ => (Ok(base), p),
        }
    }
}

/// A primary followed by any number of `.field` accessors.
pub open spec fn postfix(ts: Seq<TokenView>, p: int, replies: ReplySeq) -> Read<ExprView>
    decreases ts.len() - p, 1nat,
{
    let (first, q) = primary(ts, p, replies);
    match first {
        Err(e) => (Err(e), q),
        Ok(x) => accessors(ts, x, q),
    }
}

/// The unary operator that a token is.
pub open spec fn prefix_op(kind: TokenKindView) -> Option<UnOp> {
    match kind {
        TokenKindView::Op(Op::Bang) => Some(UnOp::Not),
        TokenKindView::Op(Op::Minus) => Some(UnOp::Neg),
        _ => None,
    }
}

pub open spec fn unary(ts: Seq<TokenView>, p: int, replies: ReplySeq) -> Read<ExprView>
    decreases ts.len() - p, 2nat,
{
    if 0 <= p < ts.len() && prefix_op(ts[p].kind) is Some {
        let (operand, q) = unary(ts, p + 1, replies);
        match operand {
            Err(e) => (Err(e), q),
            Ok(x) => (
                Ok(
                    ExprView::Unary {
                        op: prefix_op(ts[p].kind)->0,
                        operand: Box::new(x),
                        span: error::merged(ts[p].span, ast::span_of_expr(x)),
                    },
                ),
                q,
            ),
        }
    } else {
        postfix(ts, p, replies)
    }
}

/// The infix operator at a place, if it binds at least that tightly.
pub open spec fn infix_at(ts: Seq<TokenView>, p: int, min_bp: u8) -> Option<(BinOp, u8)> {
    if 0 <= p < ts.len() {
        match ts[p].kind {
            TokenKindView::Op(op) => match infix(op) {
                Some((bin, bp)) => if bp >= min_bp {
                    Some((bin, bp))
                } else {
                    None
                },
                None => None,
            },
            _ => None,
        }
    } else {
        None
    }
}

/// The operators and right-hand sides that follow an expression. They are
/// left-associative: the right side binds strictly tighter.
pub open spec fn operator_rest(
    ts: Seq<TokenView>,
    lhs: ExprView,
    p: int,
    min_bp: u8,
    replies: ReplySeq,
) -> Read<ExprView>
    decreases ts.len() - p, 3nat,
{
    match infix_at(ts, p, min_bp) {
        None => (Ok(lhs), p),
        Some((bin, bp)) => {
            let (right, q) = operator_expr(ts, p + 1, (bp + 1) as u8, replies);
            match right {
                Err(e) => (Err(e), q),
                Ok(rhs) => if p < q <= ts.len() {
                    operator_rest(
                        ts,
                        ExprView::Binary {
                            op: bin,
                            lhs: Box::new(lhs),
                            rhs: Box::new(rhs),
                            span: error::merged(ast::span_of_expr(lhs), ast::span_of_expr(rhs)),
                        },
                        q,
                        min_bp,
                        replies,
                    )
                } else {
                    (Ok(lhs), p)
                },
            }
        },
    }
}

/// Precedence climbing.
pub open spec fn operator_expr(
    ts: Seq<TokenView>,
    p: int,
    min_bp: u8,
    replies: ReplySeq,
) -> Read<ExprView>
    decreases ts.len() - p, 4nat,
{
    let (first, q) = unary(ts, p, replies);
    match first {
        Err(e) => (Err(e), q),
        Ok(lhs) => if p < q <= ts.len() {
            operator_rest(ts, lhs, q, min_bp, replies)
        } else {
            (Ok(lhs), q)
        },
    }
}

/// The parameters of a closure up to the closing pipe.
pub open spec fn closure_params(
    ts: Seq<TokenView>,
    p: int,
    params: Seq<Seq<char>>,
    open: Span,
    replies: ReplySeq,
) -> Read<Seq<Seq<char>>>
    decreases ts.len() - p,
{
    if !(0 <= p < ts.len()) {
        (
            Err(fail_at("unterminated closure parameters: expected a closing `|`"@, open)),
            p,
        )
    } else {
        match ts[p].kind {
            TokenKindView::Pipe => (Ok(params), p + 1),
            TokenKindView::Bareword(name) => closure_params(
                ts,
                p + 1,
                params.push(name),
                open,
                replies,
            ),
            TokenKindView::Var(name) => closure_params(ts, p + 1, params.push(name), open, replies),
            _ => (Err(unexpected("expected a parameter name, found "@, ts[p], replies)), p + 1),
        }
    }
}

/// How a closure that opened at `p` starts: its parameters. `||` lexes as one
/// token, so a closure without parameters is written `{|| …}`.
pub open spec fn closure_head(ts: Seq<TokenView>, p: int, replies: ReplySeq) -> Read<
    Seq<Seq<char>>,
> {
    let open = ts[p].span;
    if p + 1 < ts.len() && ts[p + 1].kind == TokenKindView::Pipe {
        closure_params(ts, p + 2, Seq::empty(), open, replies)
    } else if p + 1 < ts.len() && ts[p + 1].kind == TokenKindView::Op(Op::OrOr) {
        (Ok(Seq::empty()), p + 2)
    } else {
        (
            Err(
                StopView::Fail(
                    ErrorView::at(
                        ErrorKind::Parse,
                        "a closure needs parameters: `{|x| …}`"@,
                        open,
                    ).helped("use `{|| …}` for a closure that takes nothing"@),
                ),
            ),
            p + 1,
        )
    }
}

/// `{|x| <expr>}` — parameters between pipes, then one expression.
pub open spec fn closure(ts: Seq<TokenView>, p: int, replies: ReplySeq) -> Read<ExprView> {
    let open = ts[p].span;
    let (head, q) = closure_head(ts, p, replies);
    match head {
        Err(e) => (Err(e), q),
        Ok(params) => {
            let (body, r) = operator_expr(ts, q, 0, replies);
            match body {
                Err(e) => (Err(e), r),
                Ok(x) => if !(0 <= r < ts.len()) {
                    (Err(fail_at("unterminated closure: expected a closing `}`"@, open)), r)
                } else if ts[r].kind == TokenKindView::Op(Op::RBrace) {
                    (
                        Ok(
                            ExprView::Closure(
                                Box::new(ClosureView { params, body: x }),
                                error::merged(open, ts[r].span),
                            ),
                        ),
                        r + 1,
                    )
                } else {
                    (
                        Err(
                            unexpected(
                                "expected `}` to close the closure, found "@,
                                ts[r],
                                replies,
                            ),
                        ),
                        r + 1,
                    )
                },
            }
        },
    }
}

/// An argument at pipeline level: a plain value or a closure literal.
/// Operators are not valid here — only inside a closure body.
pub open spec fn argument(ts: Seq<TokenView>, p: int, replies: ReplySeq) -> Read<ExprView> {
    if !(0 <= p < ts.len()) {
        (Err(fail_at("expected a value"@, Span { start: 0, end: 0 })), p)
    } else {
        let t = ts[p];
        match t.kind {
            TokenKindView::Op(Op::LBrace) => closure(ts, p, replies),
            TokenKindView::Int(n) => (Ok(ExprView::Literal(ValueView::Int(n), t.span)), p + 1),
            TokenKindView::Float(f) => (
                Ok(ExprView::Literal(ValueView::Float(f), t.span)),
                p + 1,
            ),
            TokenKindView::StrRaw(s) => (
                Ok(ExprView::Literal(ValueView::Str(s), t.span)),
                p + 1,
            ),
            TokenKindView::StrInterp(parts) => (Ok(ExprView::StrInterp(parts, t.span)), p + 1),
            TokenKindView::Var(name) => (Ok(ExprView::Var(name, t.span)), p + 1),
            TokenKindView::Bareword(w) => (Ok(ExprView::Bareword(w, t.span)), p + 1),
            TokenKindView::Reserved(r) => (
                Err(fail_at("`"@ + r + "` is not supported yet"@, t.span)),
                p + 1,
            ),
            TokenKindView::Op(op) => (
                Err(
                    StopView::Fail(
                        ErrorView::at(
                            ErrorKind::Parse,
                            "`"@ + lex::op_text(op) + "` can only be used inside a closure"@,
                            t.span,
                        ).helped("write a closure like `{|x| $x.n > 5}`"@),
                    ),
                ),
                p + 1,
            ),
            _ => (Err(unexpected("expected a value, found "@, t, replies)), p + 1),
        }
    }
}

/// Where the leading run of barewords ends.
pub open spec fn words_end(ts: Seq<TokenView>, p: int) -> int
    decreases ts.len() - p,
{
    if 0 <= p < ts.len() && ts[p].kind is Bareword {
        words_end(ts, p + 1)
    } else {
        p
    }
}

/// The words from `p` up to `q`.
pub open spec fn words_between(ts: Seq<TokenView>, p: int, q: int) -> Seq<WordView> {
    Seq::new(
        (q - p) as nat,
        |k: int| WordView { node: ts[p + k].kind->Bareword_0, span: ts[p + k].span },
    )
}

/// The diagnostic where a command was expected.
pub open spec fn no_command(ts: Seq<TokenView>, p: int, replies: ReplySeq) -> StopView {
    if !(0 <= p < ts.len()) {
        fail_at("expected a command"@, Span { start: 0, end: 0 })
    } else {
        match ts[p].kind {
            TokenKindView::Reserved(r) => fail_at(
                "`"@ + r + "` is not supported yet"@,
                ts[p].span,
            ),
            _ => unexpected("expected a command, found "@, ts[p], replies),
        }
    }
}

/// The same stop, with advice where it is a failure.
pub open spec fn advised(stop: StopView, help: Seq<char>) -> StopView {
    match stop {
        StopView::Fail(e) => StopView::Fail(e.helped(help)),
        StopView::Need(q) => StopView::Need(q),
    }
}

pub open spec fn flag_advice(name: Seq<char>) -> Seq<char> {
    "`--"@ + name + "=` needs a value, e.g. `--"@ + name + "=5`"@
}

/// A call with one more argument.
pub open spec fn with_arg(call: CallView, arg: ArgView, span: Span) -> CallView {
    CallView {
        words: call.words,
        args: call.args.push(arg),
        span: error::merged(call.span, span),
    }
}

/// The arguments of a call from `p` on.
pub open spec fn arguments(
    ts: Seq<TokenView>,
    p: int,
    call: CallView,
    replies: ReplySeq,
) -> Read<CallView>
    decreases ts.len() - p,
{
    if !(0 <= p < ts.len()) {
        (Ok(call), p)
    } else {
        let t = ts[p];
        match t.kind {
            TokenKindView::Pipe => (Ok(call), p),
            TokenKindView::Semi => (Ok(call), p),
            TokenKindView::Op(Op::Lt) => (Ok(call), p),
            TokenKindView::Op(Op::Gt) => (Ok(call), p),
            TokenKindView::Reserved(r) => (
                Err(
                    StopView::Fail(
                        ErrorView::at(
                            ErrorKind::Parse,
                            "`"@ + r + "` is not supported yet"@,
                            t.span,
                        ).helped("this syntax is reserved for a future version"@),
                    ),
                ),
                p,
            ),
            TokenKindView::Flag { name, long, has_eq } => if has_eq {
                let (value, q) = argument(ts, p + 1, replies);
                match value {
                    Err(e) => (Err(advised(e, flag_advice(name))), q),
                    Ok(x) => {
                        let span = error::merged(t.span, ast::span_of_expr(x));
                        if p < q <= ts.len() {
                            arguments(
                                ts,
                                q,
                                with_arg(
                                    call,
                                    ArgView::Flag { name, long, span, value: Some(x) },
                                    span,
                                ),
                                replies,
                            )
                        } else {
                            (Ok(call), p)
                        }
                    },
                }
            } else {
                arguments(
                    ts,
                    p + 1,
                    with_arg(
                        call,
                        ArgView::Flag { name, long, span: t.span, value: None },
                        t.span,
                    ),
                    replies,
                )
            },
            _ => {
                let (value, q) = argument(ts, p, replies);
                match value {
                    Err(e) => (Err(e), q),
                    Ok(x) => if p < q <= ts.len() {
                        arguments(
                            ts,
                            q,
                            with_arg(call, ArgView::Positional(x), ast::span_of_expr(x)),
                            replies,
                        )
                    } else {
                        (Ok(call), p)
                    },
                }
            },
        }
    }
}

/// A command call: words, then arguments.
pub open spec fn call(ts: Seq<TokenView>, p: int, replies: ReplySeq) -> Read<CallView> {
    let q = words_end(ts, p);
    if q <= p {
        (Err(no_command(ts, p, replies)), p)
    } else {
        arguments(
            ts,
            q,
            CallView {
                words: words_between(ts, p, q),
                args: Seq::empty(),
                span: error::merged(ts[p].span, ts[q - 1].span),
            },
            replies,
        )
    }
}

/// What a redirect operator does with its target.
#[derive(Clone, Copy, Debug, PartialEq, Eq, Structural)]
pub enum Arrow {
    Read,
    Write,
    Append,
}

/// The redirect operator at a place, and the place behind it. `>>` lexes as
/// two tokens that touch.
pub open spec fn arrow_at(ts: Seq<TokenView>, p: int) -> Option<(Arrow, int)> {
    if !(0 <= p < ts.len()) {
        None
    } else {
        match ts[p].kind {
            TokenKindView::Op(Op::Lt) => Some((Arrow::Read, p + 1)),
            TokenKindView::Op(Op::Gt) => if p + 1 < ts.len() && ts[p + 1].kind
                == TokenKindView::Op(Op::Gt) && ts[p].span.end == ts[p + 1].span.start {
                Some((Arrow::Append, p + 2))
            } else {
                Some((Arrow::Write, p + 1))
            },
            _ => None,
        }
    }
}

/// Is there a redirect of that direction already?
pub open spec fn taken(got: RedirectsView, arrow: Arrow) -> bool {
    match arrow {
        Arrow::Read => got.input is Some,
        _ => got.output is Some,
    }
}

/// The redirects with one more.
pub open spec fn with_redirect(got: RedirectsView, arrow: Arrow, target: ExprView) -> RedirectsView {
    match arrow {
        Arrow::Read => RedirectsView { input: Some(target), ..got },
        Arrow::Write => RedirectsView {
            output: Some(OutputView { target, append: false }),
            ..got
        },
        Arrow::Append => RedirectsView {
            output: Some(OutputView { target, append: true }),
            ..got
        },
    }
}

/// The redirects from `p` on. They stand behind the last command of a pipeline,
/// at most one for each direction.
pub open spec fn redirects_from(
    ts: Seq<TokenView>,
    p: int,
    got: RedirectsView,
    replies: ReplySeq,
) -> Read<RedirectsView>
    decreases ts.len() - p,
{
    if !(0 <= p < ts.len()) {
        (Ok(got), p)
    } else {
        match arrow_at(ts, p) {
            None => if ts[p].kind == TokenKindView::Semi || (ts[p].kind == TokenKindView::Pipe
                && got == RedirectsView::none()) {
                (Ok(got), p)
            } else {
                (
                    Err(
                        unexpected(
                            "expected the end of the pipeline after a redirect, found "@,
                            ts[p],
                            replies,
                        ),
                    ),
                    p,
                )
            },
            Some((arrow, q)) => if taken(got, arrow) {
                (Err(fail_at("a pipeline takes one redirect for each direction"@, ts[p].span)), p)
            } else {
                let (target, r) = argument(ts, q, replies);
                match target {
                    Err(e) => (Err(advised(e, "name a target, e.g. `> name`"@)), r),
                    Ok(x) => if p < r <= ts.len() {
                        redirects_from(ts, r, with_redirect(got, arrow, x), replies)
                    } else {
                        (Ok(got), p)
                    },
                }
            },
        }
    }
}

/// A call and the redirects behind it.
pub open spec fn redirected_call(ts: Seq<TokenView>, p: int, replies: ReplySeq) -> Read<
    (CallView, RedirectsView),
> {
    let (one, q) = call(ts, p, replies);
    match one {
        Err(e) => (Err(e), q),
        Ok(c) => {
            let (more, r) = redirects_from(ts, q, RedirectsView::none(), replies);
            match more {
                Err(e) => (Err(e), r),
                Ok(x) => (Ok((c, x)), r),
            }
        },
    }
}

/// The next `|` or `;`, or the end, so later parts of the line still parse.
pub open spec fn synced(ts: Seq<TokenView>, p: int) -> int
    decreases ts.len() - p,
{
    if 0 <= p < ts.len() && ts[p].kind != TokenKindView::Pipe && ts[p].kind
        != TokenKindView::Semi {
        synced(ts, p + 1)
    } else {
        p
    }
}

/// The calls of a pipeline from `p` on, its redirects and the diagnostics, after
/// those that are already there; what was asked where a reply is missing.
pub open spec fn pipeline_calls(
    ts: Seq<TokenView>,
    p: int,
    calls: Seq<CallView>,
    errors: Seq<ErrorView>,
    replies: ReplySeq,
) -> (Result<(Seq<CallView>, RedirectsView, Seq<ErrorView>), QueryView>, int)
    decreases ts.len() - p,
{
    let (one, q) = redirected_call(ts, p, replies);
    match one {
        Err(StopView::Need(query)) => (Err(query), q),
        _ => {
            let stop = match one {
                Err(_) => synced(ts, q),
                Ok(_) => q,
            };
            let more_calls = match one {
                Ok((c, _)) => calls.push(c),
                Err(_) => calls,
            };
            let redirects = match one {
                Ok((_, x)) => x,
                Err(_) => RedirectsView::none(),
            };
            let more_errors = match one {
                Err(StopView::Fail(e)) => errors.push(e),
                _ => errors,
            };
            if p <= stop < ts.len() && ts[stop].kind == TokenKindView::Pipe {
                pipeline_calls(ts, stop + 1, more_calls, more_errors, replies)
            } else {
                (Ok((more_calls, redirects, more_errors)), stop)
            }
        },
    }
}

/// A pipeline of these calls; none where every call failed to parse.
pub open spec fn pipeline_of(calls: Seq<CallView>, redirects: RedirectsView) -> Option<
    PipelineView,
> {
    if calls.len() > 0 {
        Some(
            PipelineView {
                calls,
                redirects,
                span: error::merged(calls[0].span, calls.last().span),
            },
        )
    } else {
        None
    }
}

/// The pipelines of a line from `p` on and the diagnostics, after those that
/// are already there.
pub open spec fn line_from(
    ts: Seq<TokenView>,
    p: int,
    pipelines: Seq<PipelineView>,
    errors: Seq<ErrorView>,
    replies: ReplySeq,
) -> Result<OutcomeView, QueryView>
    decreases ts.len() - p,
{
    if !(0 <= p < ts.len()) {
        Ok(OutcomeView { line: LineView { pipelines }, errors })
    } else if ts[p].kind == TokenKindView::Semi {
        line_from(ts, p + 1, pipelines, errors, replies)
    } else {
        let (read, q) = pipeline_calls(ts, p, Seq::empty(), errors, replies);
        match read {
            Err(query) => Err(query),
            Ok((calls, redirects, more)) => if p < q <= ts.len() {
                line_from(
                    ts,
                    q,
                    match pipeline_of(calls, redirects) {
                        Some(pl) => pipelines.push(pl),
                        None => pipelines,
                    },
                    more,
                    replies,
                )
            } else {
                Ok(OutcomeView { line: LineView { pipelines }, errors: more })
            },
        }
    }
}

/// The syntax of a line, and its diagnostics.
pub open spec fn parsed(src: Seq<char>, replies: ReplySeq) -> Result<OutcomeView, QueryView> {
    match lex::lexed(src, replies) {
        Ok(ts) => line_from(ts, 0, Seq::empty(), Seq::empty(), replies),
        Err(StopView::Fail(e)) => Ok(
            OutcomeView { line: LineView { pipelines: Seq::empty() }, errors: seq![e] },
        ),
        Err(StopView::Need(q)) => Err(q),
    }
}

/// Operator → (syntax operator, binding power).
pub fn binop_of(op: Op) -> (r: Option<(BinOp, u8)>)
    ensures
        r == infix(op),
        r matches Some((_, bp)) ==> 1 <= bp <= 5,
{
    match op {
        Op::OrOr => Some((BinOp::Or, 1)),
        Op::AndAnd => Some((BinOp::And, 2)),
        Op::EqEq => Some((BinOp::Eq, 3)),
        Op::Ne => Some((BinOp::Ne, 3)),
        Op::Lt => Some((BinOp::Lt, 3)),
        Op::Le => Some((BinOp::Le, 3)),
        Op::Gt => Some((BinOp::Gt, 3)),
        Op::Ge => Some((BinOp::Ge, 3)),
        Op::Plus => Some((BinOp::Add, 4)),
        Op::Minus => Some((BinOp::Sub, 4)),
        Op::Star => Some((BinOp::Mul, 5)),
        Op::Slash => Some((BinOp::Div, 5)),
        Op::Percent => Some((BinOp::Rem, 5)),
        _ => None,
    }
}

/// A text or why there is none.
pub open spec fn text_result(r: Result<String, Stop>) -> Result<Seq<char>, StopView> {
    match r {
        Ok(s) => Ok(s@),
        Err(e) => Err(e@),
    }
}

fn describe(kind: &TokenKind, replies: &Replies) -> (r: Result<String, Stop>)
    ensures
        text_result(r) == described(kind@, replies@),
{
    match kind {
        TokenKind::Bareword(w) => Ok(text::around("`", w.as_str(), "`")),
        TokenKind::Int(n) => Ok(text::around("`", text::int_text(*n).as_str(), "`")),
        TokenKind::Float(f) => match ask::ask_text(replies, Query::ShowFloat(*f)) {
            Ok(t) => Ok(text::around("`", t.as_str(), "`")),
            Err(e) => Err(e),
        },
        TokenKind::StrRaw(_) => Ok("a string".to_owned()),
        TokenKind::StrInterp(_) => Ok("a string".to_owned()),
        TokenKind::Var(v) => Ok(text::around("`$", v.as_str(), "`")),
        TokenKind::Flag { name, .. } => Ok(text::around("flag `--", name.as_str(), "`")),
        TokenKind::Pipe => Ok("`|`".to_owned()),
        TokenKind::Semi => Ok("`;`".to_owned()),
        TokenKind::Op(op) => Ok(text::around("`", op.as_str(), "`")),
        TokenKind::Reserved(r) => Ok(text::around("`", r.as_str(), "`")),
    }
}

fn stop_at(msg: &str, span: Span) -> (r: Stop)
    ensures
        r@ == fail_at(msg@, span),
{
    Stop::Fail(ShellError::parse(msg, span))
}

fn stop_unexpected(what: &str, t: &Token, replies: &Replies) -> (r: Stop)
    ensures
        r@ == unexpected(what@, t@, replies@),
{
    match describe(&t.kind, replies) {
        Ok(d) => {
            let mut m = what.to_owned();
            m.append(d.as_str());
            stop_at(m.as_str(), t.span)
        },
        Err(e) => e,
    }
}

/// The dotted words of a field path.
fn path_of(w: &str) -> (r: Vec<String>)
    ensures
        text::texts(r@) == field_path(w@),
{
    let chars = text::to_chars(w);
    let mut done: Vec<String> = Vec::new();
    let mut word = String::new();
    let mut i: usize = 0;
    proof {
        assert(w@.take(0) =~= Seq::empty());
        assert(text::texts(done@) =~= Seq::empty());
    }
    while i < chars.len()
        invariant
            chars@ == w@,
            i <= chars@.len(),
            path_words(w@.take(i as int)) == (text::texts(done@), word@),
        decreases chars@.len() - i,
    {
        proof {
            assert(w@.take(i + 1).drop_last() =~= w@.take(i as int));
            assert(w@.take(i + 1).last() == w@[i as int]);
        }
        if chars[i] == '.' {
            push_word(&mut done, word);
            word = String::new();
        } else {
            word.push(chars[i]);
        }
        i = i + 1;
    }
    proof {
        assert(w@.take(w@.len() as int) =~= w@);
    }
    push_word(&mut done, word);
    done
}

fn push_word(done: &mut Vec<String>, word: String)
    ensures
        text::texts(final(done)@) == with_word(text::texts(old(done)@), word@),
{
    if !word.as_str().is_empty() {
        done.push(word);
        proof {
            assert(text::texts(done@) =~= text::texts(old(done)@).push(word@));
        }
    }
}

/// What came of reading an expression.
pub open spec fn expr_read(r: (Result<Expr, Stop>, usize)) -> Read<ExprView> {
    (
        match r.0 {
            Ok(e) => Ok(e@),
            Err(s) => Err(s@),
        },
        r.1 as int,
    )
}

/// What came of reading a call.
pub open spec fn call_read(r: (Result<Call, Stop>, usize)) -> Read<CallView> {
    (
        match r.0 {
            Ok(c) => Ok(c@),
            Err(s) => Err(s@),
        },
        r.1 as int,
    )
}

/// Reading gets on where it succeeds, and never goes back or past the end.
pub open spec fn advances<T>(p: int, r: (Result<T, Stop>, usize), len: nat) -> bool {
    p <= r.1 <= len && (r.0 is Ok ==> p < r.1)
}

/// What came of reading redirects.
pub open spec fn redirects_read(r: (Result<Redirects, Stop>, usize)) -> Read<RedirectsView> {
    (
        match r.0 {
            Ok(x) => Ok(x@),
            Err(s) => Err(s@),
        },
        r.1 as int,
    )
}

struct Parser<'a> {
    tokens: &'a Vec<Token>,
    replies: &'a Replies,
}

impl<'a> Parser<'a> {
    spec fn ts(&self) -> Seq<TokenView> {
        lex::tokens_view(self.tokens@)
    }

    fn parse_primary(&self, p: usize) -> (r: (Result<Expr, Stop>, usize))
        requires
            p <= self.tokens@.len(),
        ensures
            expr_read(r) == primary(self.ts(), p as int, self.replies@),
            advances(p as int, r, self.tokens@.len()),
        decreases self.tokens@.len() - p, 0nat,
    {
        if p >= self.tokens.len() {
            return (Err(stop_at("expected a value", Span::new(0, 0))), p);
        }
        let t = &self.tokens[p];
        proof {
            assert(self.ts()[p as int] == t@);
        }
        match &t.kind {
            TokenKind::Int(n) => (Ok(Expr::Literal(Value::Int(*n), t.span)), p + 1),
            TokenKind::Float(f) => (Ok(Expr::Literal(Value::Float(*f), t.span)), p + 1),
            TokenKind::StrRaw(s) => (Ok(Expr::Literal(Value::Str(s.clone()), t.span)), p + 1),
            TokenKind::StrInterp(parts) => (
                Ok(Expr::StrInterp(ast::clone_parts(parts), t.span)),
                p + 1,
            ),
            TokenKind::Var(name) => (Ok(Expr::Var(name.clone(), t.span)), p + 1),
            TokenKind::Bareword(w) => {
                let e = if text::same_text(w.as_str(), "true") {
                    Expr::Literal(Value::Bool(true), t.span)
                } else if text::same_text(w.as_str(), "false") {
                    Expr::Literal(Value::Bool(false), t.span)
                } else if text::same_text(w.as_str(), "null") {
                    Expr::Literal(Value::Null, t.span)
                } else {
                    Expr::Bareword(w.clone(), t.span)
                };
                (Ok(e), p + 1)
            },
            TokenKind::Op(Op::LParen) => {
                let (inner, q) = self.parse_operator_expr(p + 1, 0);
                match inner {
                    Err(e) => (Err(e), q),
                    Ok(x) => {
                        if q >= self.tokens.len() {
                            return (Err(stop_at("expected `)`", t.span)), q);
                        }
                        proof {
                            assert(self.ts()[q as int] == self.tokens@[q as int]@);
                        }
                        match &self.tokens[q].kind {
                            TokenKind::Op(Op::RParen) => (Ok(x), q + 1),
                            _ => (
                                Err(
                                    stop_unexpected(
                                        "expected `)`, found ",
                                        &self.tokens[q],
                                        self.replies,
                                    ),
                                ),
                                q + 1,
                            ),
                        }
                    },
                }
            },
            TokenKind::Op(Op::Assign) => (
                Err(
                    Stop::Fail(
                        ShellError::parse("`=` is not an operator here", t.span).with_help(
                            "use `==` to compare",
                        ),
                    ),
                ),
                p + 1,
            ),
            _ => (Err(stop_unexpected("expected a value, found ", t, self.replies)), p + 1),
        }
    }

    /// A primary followed by any number of `.field` accessors.
    fn parse_postfix(&self, p: usize) -> (r: (Result<Expr, Stop>, usize))
        requires
            p <= self.tokens@.len(),
        ensures
            expr_read(r) == postfix(self.ts(), p as int, self.replies@),
            advances(p as int, r, self.tokens@.len()),
        decreases self.tokens@.len() - p, 1nat,
    {
        let (first, q) = self.parse_primary(p);
        match first {
            Err(e) => (Err(e), q),
            Ok(x) => {
                let mut expr = x;
                let mut k: usize = q;
                while k < self.tokens.len()
                    invariant
                        p < k <= self.tokens@.len(),
                        accessors(self.ts(), expr@, k as int) == postfix(
                            self.ts(),
                            p as int,
                            self.replies@,
                        ),
                    decreases self.tokens@.len() - k,
                {
                    let t = &self.tokens[k];
                    proof {
                        assert(self.ts()[k as int] == t@);
                    }
                    match &t.kind {
                        TokenKind::Bareword(w) => {
                            if w.as_str().is_empty() || w.as_str().get_char(0) != '.' {
                                return (Ok(expr), k);
                            }
                            let path = path_of(w.as_str());
                            if path.len() == 0 {
                                return (
                                    Err(stop_at("expected a field name after `.`", t.span)),
                                    k + 1,
                                );
                            }
                            let span = expr.span().merge(t.span);
                            expr = Expr::Field { base: Box::new(expr), path, span };
                            k = k + 1;
                        },
                        _ => {
                            return (Ok(expr), k);
                        },
                    }
                }
                (Ok(expr), k)
            },
        }
    }

    fn parse_unary(&self, p: usize) -> (r: (Result<Expr, Stop>, usize))
        requires
            p <= self.tokens@.len(),
        ensures
            expr_read(r) == unary(self.ts(), p as int, self.replies@),
            advances(p as int, r, self.tokens@.len()),
        decreases self.tokens@.len() - p, 2nat,
    {
        if p < self.tokens.len() {
            let t = &self.tokens[p];
            proof {
                assert(self.ts()[p as int] == t@);
            }
            let un = match &t.kind {
                TokenKind::Op(Op::Bang) => Some(UnOp::Not),
                TokenKind::Op(Op::Minus) => Some(UnOp::Neg),
                _ => None,
            };
            proof {
                assert(un == prefix_op(t@.kind));
            }
            if let Some(op) = un {
                let (operand, q) = self.parse_unary(p + 1);
                return match operand {
                    Err(e) => (Err(e), q),
                    Ok(x) => {
                        let span = t.span.merge(x.span());
                        (Ok(Expr::Unary { op, operand: Box::new(x), span }), q)
                    },
                };
            }
        }
        self.parse_postfix(p)
    }

    /// Precedence climbing.
    fn parse_operator_expr(&self, p: usize, min_bp: u8) -> (r: (Result<Expr, Stop>, usize))
        requires
            p <= self.tokens@.len(),
        ensures
            expr_read(r) == operator_expr(self.ts(), p as int, min_bp, self.replies@),
            advances(p as int, r, self.tokens@.len()),
        decreases self.tokens@.len() - p, 4nat,
    {
        let (first, q) = self.parse_unary(p);
        let mut lhs = match first {
            Err(e) => {
                return (Err(e), q);
            },
            Ok(x) => x,
        };
        let mut k: usize = q;
        while k < self.tokens.len()
            invariant
                p < k <= self.tokens@.len(),
                operator_rest(self.ts(), lhs@, k as int, min_bp, self.replies@) == operator_expr(
                    self.ts(),
                    p as int,
                    min_bp,
                    self.replies@,
                ),
            decreases self.tokens@.len() - k,
        {
            proof {
                assert(self.ts()[k as int] == self.tokens@[k as int]@);
            }
            let found = match &self.tokens[k].kind {
                TokenKind::Op(op) => binop_of(*op),
                _ => None,
            };
            match found {
                None => {
                    return (Ok(lhs), k);
                },
                Some((bin, bp)) => {
                    if bp < min_bp {
                        return (Ok(lhs), k);
                    }
                    let (right, next) = self.parse_operator_expr(k + 1, bp + 1);
                    match right {
                        Err(e) => {
                            return (Err(e), next);
                        },
                        Ok(rhs) => {
                            let span = lhs.span().merge(rhs.span());
                            lhs =
                            Expr::Binary { op: bin, lhs: Box::new(lhs), rhs: Box::new(rhs), span };
                            k = next;
                        },
                    }
                },
            }
        }
        (Ok(lhs), k)
    }

    /// The parameters of a closure that opened at `p`.
    fn parse_closure_head(&self, p: usize) -> (r: (Result<Vec<String>, Stop>, usize))
        requires
            p < self.tokens@.len(),
        ensures
            ({
                let (head, q) = closure_head(self.ts(), p as int, self.replies@);
                &&& r.1 == q
                &&& match r.0 {
                    Ok(params) => head == Ok::<Seq<Seq<char>>, StopView>(text::texts(params@)),
                    Err(e) => head == Err::<Seq<Seq<char>>, StopView>(e@),
                }
            }),
            p < r.1 <= self.tokens@.len(),
    {
        let ghost ts = self.ts();
        let open = self.tokens[p].span;
        proof {
            assert(ts[p as int] == self.tokens@[p as int]@);
        }
        let mut params: Vec<String> = Vec::new();
        let n: usize = self.tokens.len();
        let mut k: usize = p + 1;
        if k < n {
            proof {
                assert(ts[k as int] == self.tokens@[k as int]@);
            }
            match &self.tokens[k].kind {
                TokenKind::Pipe => {
                    k = k + 1;
                    proof {
                        assert(text::texts(params@) =~= Seq::empty());
                    }
                    while k < self.tokens.len()
                        invariant
                            p < k <= self.tokens@.len(),
                            ts == self.ts(),
                            open == ts[p as int].span,
                            closure_params(
                                ts,
                                k as int,
                                text::texts(params@),
                                open,
                                self.replies@,
                            ) == closure_head(ts, p as int, self.replies@),
                        decreases self.tokens@.len() - k,
                    {
                        let t = &self.tokens[k];
                        proof {
                            assert(ts[k as int] == t@);
                        }
                        match &t.kind {
                            TokenKind::Pipe => {
                                return (Ok(params), k + 1);
                            },
                            TokenKind::Bareword(name) => {
                                let ghost before = params@;
                                params.push(name.clone());
                                proof {
                                    assert(text::texts(params@) =~= text::texts(before).push(
                                        name@,
                                    ));
                                }
                                k = k + 1;
                            },
                            TokenKind::Var(name) => {
                                let ghost before = params@;
                                params.push(name.clone());
                                proof {
                                    assert(text::texts(params@) =~= text::texts(before).push(
                                        name@,
                                    ));
                                }
                                k = k + 1;
                            },
                            _ => {
                                return (
                                    Err(
                                        stop_unexpected(
                                            "expected a parameter name, found ",
                                            t,
                                            self.replies,
                                        ),
                                    ),
                                    k + 1,
                                );
                            },
                        }
                    }
                    return (
                        Err(
                            stop_at(
                                "unterminated closure parameters: expected a closing `|`",
                                open,
                            ),
                        ),
                        k,
                    );
                },
                TokenKind::Op(Op::OrOr) => {
                    proof {
                        assert(text::texts(params@) =~= Seq::empty());
                    }
                    return (Ok(params), k + 1);
                },
                _ => {},
            }
        }
        (
            Err(
                Stop::Fail(
                    ShellError::parse("a closure needs parameters: `{|x| …}`", open).with_help(
                        "use `{|| …}` for a closure that takes nothing",
                    ),
                ),
            ),
            p + 1,
        )
    }

    /// `{|x| <expr>}` — parameters between pipes, then one expression.
    fn parse_closure(&self, p: usize) -> (r: (Result<Expr, Stop>, usize))
        requires
            p < self.tokens@.len(),
        ensures
            expr_read(r) == closure(self.ts(), p as int, self.replies@),
            advances(p as int, r, self.tokens@.len()),
    {
        let open = self.tokens[p].span;
        proof {
            assert(self.ts()[p as int] == self.tokens@[p as int]@);
        }
        let (head, q) = self.parse_closure_head(p);
        let params = match head {
            Err(e) => {
                return (Err(e), q);
            },
            Ok(params) => params,
        };
        let (body, k) = self.parse_operator_expr(q, 0);
        match body {
            Err(e) => (Err(e), k),
            Ok(x) => {
                if k >= self.tokens.len() {
                    return (
                        Err(stop_at("unterminated closure: expected a closing `}`", open)),
                        k,
                    );
                }
                let t = &self.tokens[k];
                proof {
                    assert(self.ts()[k as int] == t@);
                }
                match &t.kind {
                    TokenKind::Op(Op::RBrace) => (
                        Ok(
                            Expr::Closure(
                                Box::new(Closure { params, body: x }),
                                open.merge(t.span),
                            ),
                        ),
                        k + 1,
                    ),
                    _ => (
                        Err(
                            stop_unexpected(
                                "expected `}` to close the closure, found ",
                                t,
                                self.replies,
                            ),
                        ),
                        k + 1,
                    ),
                }
            },
        }
    }

    /// An argument at pipeline level.
    fn parse_expr(&self, p: usize) -> (r: (Result<Expr, Stop>, usize))
        requires
            p <= self.tokens@.len(),
        ensures
            expr_read(r) == argument(self.ts(), p as int, self.replies@),
            advances(p as int, r, self.tokens@.len()),
    {
        if p >= self.tokens.len() {
            return (Err(stop_at("expected a value", Span::new(0, 0))), p);
        }
        let t = &self.tokens[p];
        proof {
            assert(self.ts()[p as int] == t@);
        }
        match &t.kind {
            TokenKind::Op(Op::LBrace) => self.parse_closure(p),
            TokenKind::Int(n) => (Ok(Expr::Literal(Value::Int(*n), t.span)), p + 1),
            TokenKind::Float(f) => (Ok(Expr::Literal(Value::Float(*f), t.span)), p + 1),
            TokenKind::StrRaw(s) => (Ok(Expr::Literal(Value::Str(s.clone()), t.span)), p + 1),
            TokenKind::StrInterp(parts) => (
                Ok(Expr::StrInterp(ast::clone_parts(parts), t.span)),
                p + 1,
            ),
            TokenKind::Var(name) => (Ok(Expr::Var(name.clone(), t.span)), p + 1),
            TokenKind::Bareword(w) => (Ok(Expr::Bareword(w.clone(), t.span)), p + 1),
            TokenKind::Reserved(r) => (
                Err(stop_at(text::around("`", r.as_str(), "` is not supported yet").as_str(), t.span)),
                p + 1,
            ),
            TokenKind::Op(op) => (
                Err(
                    Stop::Fail(
                        ShellError::parse(
                            text::around(
                                "`",
                                op.as_str(),
                                "` can only be used inside a closure",
                            ).as_str(),
                            t.span,
                        ).with_help("write a closure like `{|x| $x.n > 5}`"),
                    ),
                ),
                p + 1,
            ),
            _ => (Err(stop_unexpected("expected a value, found ", t, self.replies)), p + 1),
        }
    }
}

impl<'a> Parser<'a> {
    /// The arguments of a call.
    fn parse_args(&self, start: usize, head: Call) -> (r: (Result<Call, Stop>, usize))
        requires
            start <= self.tokens@.len(),
        ensures
            call_read(r) == arguments(self.ts(), start as int, head@, self.replies@),
            start <= r.1 <= self.tokens@.len(),
    {
        let ghost ts = self.ts();
        let words = head.words;
        let mut args: Vec<Arg> = head.args;
        let mut span = head.span;
        let ghost wv = ast::words_view(words@);
        let mut k: usize = start;
        while k < self.tokens.len()
            invariant
                start <= k <= self.tokens@.len(),
                ts == self.ts(),
                wv == ast::words_view(words@),
                arguments(
                    ts,
                    k as int,
                    CallView { words: wv, args: ast::args_view(args@), span },
                    self.replies@,
                ) == arguments(ts, start as int, head@, self.replies@),
            decreases self.tokens@.len() - k,
        {
            let t = &self.tokens[k];
            proof {
                assert(ts[k as int] == t@);
            }
            match &t.kind {
                TokenKind::Pipe => {
                    return (Ok(Call { words, args, span }), k);
                },
                TokenKind::Semi => {
                    return (Ok(Call { words, args, span }), k);
                },
                TokenKind::Op(Op::Lt) => {
                    return (Ok(Call { words, args, span }), k);
                },
                TokenKind::Op(Op::Gt) => {
                    return (Ok(Call { words, args, span }), k);
                },
                TokenKind::Reserved(r) => {
                    return (
                        Err(
                            Stop::Fail(
                                ShellError::parse(
                                    text::around("`", r.as_str(), "` is not supported yet").as_str(),
                                    t.span,
                                ).with_help("this syntax is reserved for a future version"),
                            ),
                        ),
                        k,
                    );
                },
                TokenKind::Flag { name, long, has_eq } => {
                    let mut value: Option<Expr> = None;
                    let mut fspan = t.span;
                    let mut next: usize = k + 1;
                    if *has_eq {
                        let (read, q) = self.parse_expr(k + 1);
                        match read {
                            Err(e) => {
                                return (Err(advise(e, name.as_str())), q);
                            },
                            Ok(x) => {
                                fspan = t.span.merge(x.span());
                                value = Some(x);
                                next = q;
                            },
                        }
                    }
                    span = span.merge(fspan);
                    let ghost before = args@;
                    args.push(Arg::Flag { name: name.clone(), long: *long, span: fspan, value });
                    proof {
                        assert(ast::args_view(args@) =~= ast::args_view(before).push(
                            ArgView::Flag {
                                name: name@,
                                long: *long,
                                span: fspan,
                                value: ast::opt_expr(value),
                            },
                        ));
                    }
                    k = next;
                },
                _ => {
                    let (read, q) = self.parse_expr(k);
                    match read {
                        Err(e) => {
                            return (Err(e), q);
                        },
                        Ok(x) => {
                            span = span.merge(x.span());
                            let ghost before = args@;
                            args.push(Arg::Positional(x));
                            proof {
                                assert(ast::args_view(args@) =~= ast::args_view(before).push(
                                    ArgView::Positional(x@),
                                ));
                            }
                            k = q;
                        },
                    }
                },
            }
        }
        (Ok(Call { words, args, span }), k)
    }

    fn parse_call(&self, p: usize) -> (r: (Result<Call, Stop>, usize))
        requires
            p <= self.tokens@.len(),
        ensures
            call_read(r) == call(self.ts(), p as int, self.replies@),
            p <= r.1 <= self.tokens@.len(),
            r.0 is Ok ==> p < r.1,
    {
        let ghost ts = self.ts();
        let mut words: Vec<Spanned<String>> = Vec::new();
        let mut k: usize = p;
        proof {
            assert(ast::words_view(words@) =~= words_between(ts, p as int, p as int));
        }
        while k < self.tokens.len()
            invariant
                p <= k <= self.tokens@.len(),
                ts == self.ts(),
                words@.len() == k - p,
                ast::words_view(words@) == words_between(ts, p as int, k as int),
                words_end(ts, p as int) == words_end(ts, k as int),
            ensures
                p <= k <= self.tokens@.len(),
                words@.len() == k - p,
                ast::words_view(words@) == words_between(ts, p as int, k as int),
                words_end(ts, p as int) == k,
            decreases self.tokens@.len() - k,
        {
            let t = &self.tokens[k];
            proof {
                assert(ts[k as int] == t@);
            }
            match &t.kind {
                TokenKind::Bareword(w) => {
                    let ghost before = words@;
                    words.push(Spanned { node: w.clone(), span: t.span });
                    proof {
                        assert(ast::words_view(words@) =~= words_between(
                            ts,
                            p as int,
                            k as int,
                        ).push(WordView { node: w@, span: t.span }));
                        assert(ast::words_view(words@) =~= words_between(
                            ts,
                            p as int,
                            k as int + 1,
                        ));
                    }
                    k = k + 1;
                },
                _ => {
                    break ;
                },
            }
        }
        if k == p {
            return (Err(self.stop_no_command(p)), p);
        }
        proof {
            assert(ts[p as int] == self.tokens@[p as int]@);
            assert(ts[k - 1] == self.tokens@[k - 1]@);
        }
        let span = self.tokens[p].span.merge(self.tokens[k - 1].span);
        let args: Vec<Arg> = Vec::new();
        proof {
            assert(ast::args_view(args@) =~= Seq::empty());
        }
        self.parse_args(k, Call { words, args, span })
    }

    fn stop_no_command(&self, p: usize) -> (r: Stop)
        requires
            p <= self.tokens@.len(),
        ensures
            r@ == no_command(self.ts(), p as int, self.replies@),
    {
        if p >= self.tokens.len() {
            return stop_at("expected a command", Span::new(0, 0));
        }
        let t = &self.tokens[p];
        proof {
            assert(self.ts()[p as int] == t@);
        }
        match &t.kind {
            TokenKind::Reserved(r) => stop_at(
                text::around("`", r.as_str(), "` is not supported yet").as_str(),
                t.span,
            ),
            _ => stop_unexpected("expected a command, found ", t, self.replies),
        }
    }

    /// The redirect operator at a place, and the place behind it.
    fn arrow(&self, p: usize) -> (r: Option<(Arrow, usize)>)
        requires
            p <= self.tokens@.len(),
        ensures
            match r {
                Some((arrow, q)) => arrow_at(self.ts(), p as int) == Some((arrow, q as int)) && p
                    < q <= self.tokens@.len(),
                None => arrow_at(self.ts(), p as int) is None,
            },
    {
        if p >= self.tokens.len() {
            return None;
        }
        proof {
            assert(self.ts()[p as int] == self.tokens@[p as int]@);
        }
        match &self.tokens[p].kind {
            TokenKind::Op(Op::Lt) => Some((Arrow::Read, p + 1)),
            TokenKind::Op(Op::Gt) => {
                if p + 1 < self.tokens.len() {
                    proof {
                        assert(self.ts()[p + 1] == self.tokens@[p + 1]@);
                    }
                    match &self.tokens[p + 1].kind {
                        TokenKind::Op(Op::Gt) => {
                            if self.tokens[p].span.end == self.tokens[p + 1].span.start {
                                return Some((Arrow::Append, p + 2));
                            }
                        },
                        _ => {},
                    }
                }
                Some((Arrow::Write, p + 1))
            },
            _ => None,
        }
    }

    /// The redirects behind a call.
    fn parse_redirects(&self, start: usize) -> (r: (Result<Redirects, Stop>, usize))
        requires
            start <= self.tokens@.len(),
        ensures
            redirects_read(r) == redirects_from(
                self.ts(),
                start as int,
                RedirectsView::none(),
                self.replies@,
            ),
            start <= r.1 <= self.tokens@.len(),
    {
        let ghost ts = self.ts();
        let mut got = Redirects::none();
        let mut k: usize = start;
        while k < self.tokens.len()
            invariant
                start <= k <= self.tokens@.len(),
                ts == self.ts(),
                redirects_from(ts, k as int, got@, self.replies@) == redirects_from(
                    ts,
                    start as int,
                    RedirectsView::none(),
                    self.replies@,
                ),
            decreases self.tokens@.len() - k,
        {
            let t = &self.tokens[k];
            proof {
                assert(ts[k as int] == t@);
            }
            match self.arrow(k) {
                None => {
                    let ends = match &t.kind {
                        TokenKind::Semi => true,
                        TokenKind::Pipe => got.input.is_none() && got.output.is_none(),
                        _ => false,
                    };
                    if ends {
                        return (Ok(got), k);
                    }
                    return (
                        Err(
                            stop_unexpected(
                                "expected the end of the pipeline after a redirect, found ",
                                t,
                                self.replies,
                            ),
                        ),
                        k,
                    );
                },
                Some((arrow, q)) => {
                    let again = match arrow {
                        Arrow::Read => got.input.is_some(),
                        _ => got.output.is_some(),
                    };
                    if again {
                        return (
                            Err(
                                stop_at("a pipeline takes one redirect for each direction", t.span),
                            ),
                            k,
                        );
                    }
                    let (read, next) = self.parse_expr(q);
                    match read {
                        Err(Stop::Fail(e)) => {
                            return (
                                Err(Stop::Fail(e.with_help("name a target, e.g. `> name`"))),
                                next,
                            );
                        },
                        Err(Stop::Need(query)) => {
                            return (Err(Stop::Need(query)), next);
                        },
                        Ok(target) => {
                            match arrow {
                                Arrow::Read => {
                                    got.input = Some(target);
                                },
                                Arrow::Write => {
                                    got.output = Some(Output { target, append: false });
                                },
                                Arrow::Append => {
                                    got.output = Some(Output { target, append: true });
                                },
                            }
                            k = next;
                        },
                    }
                },
            }
        }
        (Ok(got), k)
    }

    /// A call and the redirects behind it.
    fn parse_redirected(&self, p: usize) -> (r: (Result<(Call, Redirects), Stop>, usize))
        requires
            p <= self.tokens@.len(),
        ensures
            ({
                let (read, q) = redirected_call(self.ts(), p as int, self.replies@);
                &&& r.1 == q
                &&& match r.0 {
                    Ok((c, x)) => read == Ok::<(CallView, RedirectsView), StopView>((c@, x@)),
                    Err(e) => read == Err::<(CallView, RedirectsView), StopView>(e@),
                }
            }),
            p <= r.1 <= self.tokens@.len(),
            r.0 is Ok ==> p < r.1,
    {
        let (one, q) = self.parse_call(p);
        match one {
            Err(e) => (Err(e), q),
            Ok(c) => {
                let (more, k) = self.parse_redirects(q);
                match more {
                    Err(e) => (Err(e), k),
                    Ok(x) => (Ok((c, x)), k),
                }
            },
        }
    }

    /// Skip to the next `|` or `;` so later parts of the line still parse.
    fn sync(&self, p: usize) -> (r: usize)
        requires
            p <= self.tokens@.len(),
        ensures
            r == synced(self.ts(), p as int),
            p <= r <= self.tokens@.len(),
            r < self.tokens@.len() ==> self.ts()[r as int].kind == TokenKindView::Pipe
                || self.ts()[r as int].kind == TokenKindView::Semi,
    {
        let mut k: usize = p;
        while k < self.tokens.len()
            invariant
                p <= k <= self.tokens@.len(),
                synced(self.ts(), p as int) == synced(self.ts(), k as int),
            decreases self.tokens@.len() - k,
        {
            proof {
                assert(self.ts()[k as int] == self.tokens@[k as int]@);
            }
            match &self.tokens[k].kind {
                TokenKind::Pipe => {
                    return k;
                },
                TokenKind::Semi => {
                    return k;
                },
                _ => {},
            }
            k = k + 1;
        }
        k
    }

    /// The calls of a pipeline and its redirects; the diagnostics join those that
    /// are there.
    fn parse_pipeline(&self, p: usize, errors: &mut Vec<ShellError>) -> (r: (
        Result<(Vec<Call>, Redirects), Query>,
        usize,
    ))
        requires
            p <= self.tokens@.len(),
        ensures
            ({
                let (read, q) = pipeline_calls(
                    self.ts(),
                    p as int,
                    Seq::empty(),
                    errors_view(old(errors)@),
                    self.replies@,
                );
                match r.0 {
                    Ok((calls, x)) => r.1 == q && read == Ok::<
                        (Seq<CallView>, RedirectsView, Seq<ErrorView>),
                        QueryView,
                    >((ast::calls_view(calls@), x@, errors_view(final(errors)@))),
                    Err(query) => read == Err::<
                        (Seq<CallView>, RedirectsView, Seq<ErrorView>),
                        QueryView,
                    >(query@),
                }
            }),
            r.0 is Ok ==> p <= r.1 <= self.tokens@.len(),
            r.0 is Ok && p < self.tokens@.len() && self.ts()[p as int].kind != TokenKindView::Semi
                ==> p < r.1,
    {
        let ghost ts = self.ts();
        let ghost goal = pipeline_calls(
            ts,
            p as int,
            Seq::empty(),
            errors_view(old(errors)@),
            self.replies@,
        );
        let mut calls: Vec<Call> = Vec::new();
        let mut k: usize = p;
        proof {
            assert(ast::calls_view(calls@) =~= Seq::empty());
        }
        loop
            invariant
                p <= k <= self.tokens@.len(),
                ts == self.ts(),
                goal == pipeline_calls(
                    ts,
                    p as int,
                    Seq::empty(),
                    errors_view(old(errors)@),
                    self.replies@,
                ),
                goal == pipeline_calls(
                    ts,
                    k as int,
                    ast::calls_view(calls@),
                    errors_view(errors@),
                    self.replies@,
                ),
            decreases self.tokens@.len() - k,
        {
            let ghost calls_before = calls@;
            let ghost errors_before = errors@;
            let (one, q) = self.parse_redirected(k);
            let mut redirects = Redirects::none();
            let stop: usize = match one {
                Ok((c, x)) => {
                    calls.push(c);
                    redirects = x;
                    proof {
                        assert(ast::calls_view(calls@) =~= ast::calls_view(calls_before).push(c@));
                    }
                    q
                },
                Err(Stop::Fail(e)) => {
                    errors.push(e);
                    proof {
                        assert(errors_view(errors@) =~= errors_view(errors_before).push(e@));
                    }
                    self.sync(q)
                },
                Err(Stop::Need(query)) => {
                    return (Err(query), q);
                },
            };
            if stop >= self.tokens.len() {
                return (Ok((calls, redirects)), stop);
            }
            proof {
                assert(ts[stop as int] == self.tokens@[stop as int]@);
            }
            match &self.tokens[stop].kind {
                TokenKind::Pipe => {
                    k = stop + 1;
                },
                _ => {
                    return (Ok((calls, redirects)), stop);
                },
            }
        }
    }

    fn parse_line(&self) -> (r: Result<ParseOutcome, Query>)
        ensures
            outcome_result(r) == line_from(
                self.ts(),
                0,
                Seq::empty(),
                Seq::empty(),
                self.replies@,
            ),
    {
        let ghost ts = self.ts();
        let ghost goal = line_from(ts, 0, Seq::empty(), Seq::empty(), self.replies@);
        let mut pipelines: Vec<Pipeline> = Vec::new();
        let mut errors: Vec<ShellError> = Vec::new();
        let mut k: usize = 0;
        proof {
            assert(pipelines@.map_values(|p: Pipeline| p@) =~= Seq::empty());
            assert(errors_view(errors@) =~= Seq::empty());
        }
        while k < self.tokens.len()
            invariant
                k <= self.tokens@.len(),
                ts == self.ts(),
                goal == line_from(ts, 0, Seq::empty(), Seq::empty(), self.replies@),
                goal == line_from(
                    ts,
                    k as int,
                    pipelines@.map_values(|p: Pipeline| p@),
                    errors_view(errors@),
                    self.replies@,
                ),
            decreases self.tokens@.len() - k,
        {
            proof {
                assert(ts[k as int] == self.tokens@[k as int]@);
            }
            let semi = match &self.tokens[k].kind {
                TokenKind::Semi => true,
                _ => false,
            };
            if semi {
                k = k + 1;
            } else {
                let ghost before = pipelines@;
                let (read, q) = self.parse_pipeline(k, &mut errors);
                match read {
                    Err(query) => {
                        return Err(query);
                    },
                    Ok((calls, redirects)) => {
                        let n: usize = calls.len();
                        if n > 0 {
                            proof {
                                assert(ast::calls_view(calls@).last() == calls@[n - 1]@);
                            }
                            let span = calls[0].span.merge(calls[n - 1].span);
                            let pipeline = Pipeline { calls, redirects, span };
                            pipelines.push(pipeline);
                            proof {
                                assert(pipelines@.map_values(|p: Pipeline| p@)
                                    =~= before.map_values(|p: Pipeline| p@).push(pipeline@));
                            }
                        }
                        k = q;
                    },
                }
            }
        }
        Ok(ParseOutcome { line: Line { pipelines }, errors })
    }
}

/// Advice for a flag whose value is missing or wrong.
fn advise(stop: Stop, name: &str) -> (r: Stop)
    ensures
        r@ == advised(stop@, flag_advice(name@)),
{
    match stop {
        Stop::Fail(e) => {
            let mut help = "`--".to_owned();
            help.append(name);
            help.append("=` needs a value, e.g. `--");
            help.append(name);
            help.append("=5`");
            Stop::Fail(e.with_help(help.as_str()))
        },
        Stop::Need(q) => Stop::Need(q),
    }
}

pub open spec fn outcome_result(r: Result<ParseOutcome, Query>) -> Result<OutcomeView, QueryView> {
    match r {
        Ok(o) => Ok(o@),
        Err(q) => Err(q@),
    }
}

/// Parse a line.
pub fn parse(src: &str, replies: &Replies) -> (r: Result<ParseOutcome, Query>)
    requires
        text::byte_len(src@) <= u32::MAX,
    ensures
        outcome_result(r) == parsed(src@, replies@),
{
    match lex::lex(src, replies) {
        Ok(tokens) => {
            let parser = Parser { tokens: &tokens, replies };
            parser.parse_line()
        },
        Err(Stop::Fail(e)) => {
            let mut errors: Vec<ShellError> = Vec::new();
            errors.push(e);
            let outcome = ParseOutcome { line: Line { pipelines: Vec::new() }, errors };
            proof {
                assert(outcome@.line.pipelines =~= Seq::empty());
                assert(outcome@.errors =~= seq![e@]);
            }
            Ok(outcome)
        },
        Err(Stop::Need(q)) => Err(q),
    }
}

proof fn arguments_keep_words(ts: Seq<TokenView>, p: int, head: CallView, replies: ReplySeq)
    ensures
        arguments(ts, p, head, replies).0 matches Ok(c) ==> c.words == head.words,
    decreases ts.len() - p,
{
    if 0 <= p < ts.len() {
        let t = ts[p];
        match t.kind {
            TokenKindView::Pipe => {},
            TokenKindView::Semi => {},
            TokenKindView::Op(Op::Lt) => {},
            TokenKindView::Op(Op::Gt) => {},
            TokenKindView::Reserved(_) => {},
            TokenKindView::Flag { name, long, has_eq } => {
                if has_eq {
                    let (value, q) = argument(ts, p + 1, replies);
                    match value {
                        Err(_) => {},
                        Ok(x) => {
                            let span = error::merged(t.span, ast::span_of_expr(x));
                            if p < q <= ts.len() {
                                arguments_keep_words(
                                    ts,
                                    q,
                                    with_arg(
                                        head,
                                        ArgView::Flag { name, long, span, value: Some(x) },
                                        span,
                                    ),
                                    replies,
                                );
                            }
                        },
                    }
                } else {
                    arguments_keep_words(
                        ts,
                        p + 1,
                        with_arg(
                            head,
                            ArgView::Flag { name, long, span: t.span, value: None },
                            t.span,
                        ),
                        replies,
                    );
                }
            },
            _ => {
                let (value, q) = argument(ts, p, replies);
                match value {
                    Err(_) => {},
                    Ok(x) => {
                        if p < q <= ts.len() {
                            arguments_keep_words(
                                ts,
                                q,
                                with_arg(head, ArgView::Positional(x), ast::span_of_expr(x)),
                                replies,
                            );
                        }
                    },
                }
            },
        }
    }
}

/// Does every call have at least one word?
pub open spec fn calls_named(calls: Seq<CallView>) -> bool {
    forall|i: int| 0 <= i < calls.len() ==> (#[trigger] calls[i]).words.len() > 0
}

/// Does every pipeline have at least one call, and every call a word?
pub open spec fn line_named(pipelines: Seq<PipelineView>) -> bool {
    forall|i: int|
        0 <= i < pipelines.len() ==> (#[trigger] pipelines[i]).calls.len() > 0 && calls_named(
            pipelines[i].calls,
        )
}

proof fn pipeline_calls_are_named(
    ts: Seq<TokenView>,
    p: int,
    calls: Seq<CallView>,
    errors: Seq<ErrorView>,
    replies: ReplySeq,
)
    requires
        calls_named(calls),
    ensures
        pipeline_calls(ts, p, calls, errors, replies).0 matches Ok((cs, _, _)) ==> calls_named(cs),
    decreases ts.len() - p,
{
    let (one, q) = redirected_call(ts, p, replies);
    let w = words_end(ts, p);
    if w > p {
        arguments_keep_words(
            ts,
            w,
            CallView {
                words: words_between(ts, p, w),
                args: Seq::empty(),
                span: error::merged(ts[p].span, ts[w - 1].span),
            },
            replies,
        );
    }
    match one {
        Err(StopView::Need(_)) => {},
        _ => {
            let stop = match one {
                Err(_) => synced(ts, q),
                Ok(_) => q,
            };
            let more_calls = match one {
                Ok((c, _)) => calls.push(c),
                Err(_) => calls,
            };
            let more_errors = match one {
                Err(StopView::Fail(e)) => errors.push(e),
                _ => errors,
            };
            if p <= stop < ts.len() && ts[stop].kind == TokenKindView::Pipe {
                pipeline_calls_are_named(ts, stop + 1, more_calls, more_errors, replies);
            }
        },
    }
}

proof fn line_from_is_named(
    ts: Seq<TokenView>,
    p: int,
    pipelines: Seq<PipelineView>,
    errors: Seq<ErrorView>,
    replies: ReplySeq,
)
    requires
        line_named(pipelines),
    ensures
        line_from(ts, p, pipelines, errors, replies) matches Ok(o) ==> line_named(
            o.line.pipelines,
        ),
    decreases ts.len() - p,
{
    if 0 <= p < ts.len() {
        if ts[p].kind == TokenKindView::Semi {
            line_from_is_named(ts, p + 1, pipelines, errors, replies);
        } else {
            let (read, q) = pipeline_calls(ts, p, Seq::empty(), errors, replies);
            pipeline_calls_are_named(ts, p, Seq::empty(), errors, replies);
            match read {
                Err(_) => {},
                Ok((calls, redirects, more)) => {
                    if p < q <= ts.len() {
                        line_from_is_named(
                            ts,
                            q,
                            match pipeline_of(calls, redirects) {
                                Some(pl) => pipelines.push(pl),
                                None => pipelines,
                            },
                            more,
                            replies,
                        );
                    }
                },
            }
        }
    }
}

/// Whatever a line holds, every pipeline that comes out of it has a call, and
/// every call a command word: evaluation never meets an empty one.
pub proof fn parsed_calls_have_words(src: Seq<char>, replies: ReplySeq)
    ensures
        parsed(src, replies) matches Ok(o) ==> line_named(o.line.pipelines),
{
    match lex::lexed(src, replies) {
        Ok(ts) => line_from_is_named(ts, 0, Seq::empty(), Seq::empty(), replies),
        _ => {},
    }
}

} // verus!
