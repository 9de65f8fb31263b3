//! Syntax tree of the shell language.

use crate::error;
use crate::error::Span;
use crate::lex;
use crate::lex::{InterpPart, InterpPartView};
use crate::value::{Value, ValueView};
use crate::text;
use vstd::prelude::*;

verus! {

#[derive(Debug, PartialEq, Eq)]
pub struct Spanned<T> {
    pub node: T,
    pub span: Span,
}

/// One submitted line: `;`-separated pipelines.
#[derive(Debug, PartialEq)]
pub struct Line {
    pub pipelines: Vec<Pipeline>,
}

#[derive(Debug, PartialEq)]
pub struct Pipeline {
    pub calls: Vec<Call>,
    pub redirects: Redirects,
    /// Span of the calls.
    pub span: Span,
}

/// Where a pipeline reads its input and writes its result. What a target is,
/// the host decides.
#[derive(Debug, PartialEq)]
pub struct Redirects {
    /// `< target`
    pub input: Option<Expr>,
    /// `> target`, or `>> target` to append.
    pub output: Option<Output>,
}

#[derive(Debug, PartialEq)]
pub struct Output {
    pub target: Expr,
    pub append: bool,
}

/// A command call. `words` is the maximal leading run of barewords; how many
/// of them form the command name is decided at eval time by longest-prefix
/// registry lookup (the rest become leading positional args).
#[derive(Debug, PartialEq)]
pub struct Call {
    pub words: Vec<Spanned<String>>,
    pub args: Vec<Arg>,
    pub span: Span,
}

#[derive(Debug, PartialEq)]
pub enum Arg {
    Positional(Expr),
    Flag {
        name: String,
        long: bool,
        span: Span,
        /// Present only for `--name=value`. Space-separated values are
        /// resolved at bind time using the signature (a flag with a shape
        /// consumes the next positional).
        value: Option<Expr>,
    },
}

#[derive(Debug, PartialEq)]
#[allow(inconsistent_fields)]
pub enum Expr {
    /// Int/Float/Str-from-raw-quotes literal.
    Literal(Value, Span),
    /// Unquoted word in argument position; coerced against the declared
    /// shape at bind time (`5` stays what the lexer made it; `true` can
    /// become Bool; anything else becomes Str).
    Bareword(String, Span),
    /// `"text $var"` — resolved against the scope at bind time.
    StrInterp(Vec<InterpPart>, Span),
    /// `$var`
    Var(String, Span),
    /// `$x.field.nested` — field access on any expression.
    Field { base: Box<Expr>, path: Vec<String>, span: Span },
    /// `a + b`, `a > b`, `a && b`, …
    Binary { op: BinOp, lhs: Box<Expr>, rhs: Box<Expr>, span: Span },
    /// `-a`, `!a`
    Unary { op: UnOp, operand: Box<Expr>, span: Span },
    /// `{|x| expr}` — a closure literal. Only valid where a command takes a
    /// function; bind turns it into a callable.
    Closure(Box<Closure>, Span),
}

/// A closure literal's parameters and body.
#[derive(Debug, PartialEq)]
pub struct Closure {
    pub params: Vec<String>,
    pub body: Expr,
}

#[derive(Clone, Copy, Debug, PartialEq, Eq, Structural)]
pub enum BinOp {
    Add,
    Sub,
    Mul,
    Div,
    Rem,
    Eq,
    Ne,
    Lt,
    Le,
    Gt,
    Ge,
    And,
    Or,
}

#[derive(Clone, Copy, Debug, PartialEq, Eq, Structural)]
pub enum UnOp {
    Neg,
    Not,
}

pub struct WordView {
    pub node: Seq<char>,
    pub span: Span,
}

pub struct LineView {
    pub pipelines: Seq<PipelineView>,
}

pub struct PipelineView {
    pub calls: Seq<CallView>,
    pub redirects: RedirectsView,
    pub span: Span,
}

pub struct RedirectsView {
    pub input: Option<ExprView>,
    pub output: Option<OutputView>,
}

pub struct OutputView {
    pub target: ExprView,
    pub append: bool,
}

impl RedirectsView {
    pub open spec fn none() -> RedirectsView {
        RedirectsView { input: None, output: None }
    }
}

pub struct CallView {
    pub words: Seq<WordView>,
    pub args: Seq<ArgView>,
    pub span: Span,
}

pub enum ArgView {
    Positional(ExprView),
    Flag { name: Seq<char>, long: bool, span: Span, value: Option<ExprView> },
}

#[allow(inconsistent_fields)]
pub enum ExprView {
    Literal(ValueView, Span),
    Bareword(Seq<char>, Span),
    StrInterp(Seq<InterpPartView>, Span),
    Var(Seq<char>, Span),
    Field { base: Box<ExprView>, path: Seq<Seq<char>>, span: Span },
    Binary { op: BinOp, lhs: Box<ExprView>, rhs: Box<ExprView>, span: Span },
    Unary { op: UnOp, operand: Box<ExprView>, span: Span },
    Closure(Box<ClosureView>, Span),
}

pub struct ClosureView {
    pub params: Seq<Seq<char>>,
    pub body: ExprView,
}

pub open spec fn expr_view(e: Expr) -> ExprView
    decreases e,
{
    match e {
        Expr::Literal(v, span) => ExprView::Literal(v@, span),
        Expr::Bareword(w, span) => ExprView::Bareword(w@, span),
        Expr::StrInterp(parts, span) => ExprView::StrInterp(lex::parts_view(parts@), span),
        Expr::Var(name, span) => ExprView::Var(name@, span),
        Expr::Field { base, path, span } => ExprView::Field {
            base: Box::new(expr_view(*base)),
            path: text::texts(path@),
            span,
        },
        Expr::Binary { op, lhs, rhs, span } => ExprView::Binary {
            op,
            lhs: Box::new(expr_view(*lhs)),
            rhs: Box::new(expr_view(*rhs)),
            span,
        },
        Expr::Unary { op, operand, span } => ExprView::Unary {
            op,
            operand: Box::new(expr_view(*operand)),
            span,
        },
        Expr::Closure(c, span) => ExprView::Closure(
            Box::new(ClosureView { params: text::texts(c.params@), body: expr_view(c.body) }),
            span,
        ),
    }
}

impl View for Expr {
    type V = ExprView;

    open spec fn view(&self) -> ExprView {
        expr_view(*self)
    }
}

impl View for Closure {
    type V = ClosureView;

    open spec fn view(&self) -> ClosureView {
        ClosureView { params: text::texts(self.params@), body: self.body@ }
    }
}

pub open spec fn opt_expr(e: Option<Expr>) -> Option<ExprView> {
    match e {
        Some(e) => Some(e@),
        None => None,
    }
}

impl View for Arg {
    type V = ArgView;

    open spec fn view(&self) -> ArgView {
        match *self {
            Arg::Positional(e) => ArgView::Positional(e@),
            Arg::Flag { name, long, span, value } => ArgView::Flag {
                name: name@,
                long,
                span,
                value: opt_expr(value),
            },
        }
    }
}

pub open spec fn words_view(words: Seq<Spanned<String>>) -> Seq<WordView> {
    words.map_values(|w: Spanned<String>| WordView { node: w.node@, span: w.span })
}

pub open spec fn args_view(args: Seq<Arg>) -> Seq<ArgView> {
    args.map_values(|a: Arg| a@)
}

impl View for Call {
    type V = CallView;

    open spec fn view(&self) -> CallView {
        CallView {
            words: words_view(self.words@),
            args: args_view(self.args@),
            span: self.span,
        }
    }
}

pub open spec fn calls_view(calls: Seq<Call>) -> Seq<CallView> {
    calls.map_values(|c: Call| c@)
}

impl View for Output {
    type V = OutputView;

    open spec fn view(&self) -> OutputView {
        OutputView { target: self.target@, append: self.append }
    }
}

pub open spec fn opt_output(o: Option<Output>) -> Option<OutputView> {
    match o {
        Some(o) => Some(o@),
        None => None,
    }
}

impl View for Redirects {
    type V = RedirectsView;

    open spec fn view(&self) -> RedirectsView {
        RedirectsView { input: opt_expr(self.input), output: opt_output(self.output) }
    }
}

impl Redirects {
    pub fn none() -> (r: Self)
        ensures
            r@ == RedirectsView::none(),
    {
        Redirects { input: None, output: None }
    }
}

impl View for Pipeline {
    type V = PipelineView;

    open spec fn view(&self) -> PipelineView {
        PipelineView {
            calls: calls_view(self.calls@),
            redirects: self.redirects@,
            span: self.span,
        }
    }
}

impl View for Line {
    type V = LineView;

    open spec fn view(&self) -> LineView {
        LineView { pipelines: self.pipelines@.map_values(|p: Pipeline| p@) }
    }
}

pub open spec fn span_of_expr(e: ExprView) -> Span {
    match e {
        ExprView::Literal(_, s) => s,
        ExprView::Bareword(_, s) => s,
        ExprView::StrInterp(_, s) => s,
        ExprView::Var(_, s) => s,
        ExprView::Field { span, .. } => span,
        ExprView::Binary { span, .. } => span,
        ExprView::Unary { span, .. } => span,
        ExprView::Closure(_, s) => s,
    }
}

/// Span of the command words alone; of the whole call where it has none.
pub open spec fn words_span_of(call: CallView) -> Span {
    if call.words.len() > 0 {
        error::merged(call.words[0].span, call.words.last().span)
    } else {
        call.span
    }
}

impl Call {
    /// Span covering just the command words (used for error reporting).
    pub fn words_span(&self) -> (r: Span)
        ensures
            r == words_span_of(self@),
    {
        let n: usize = self.words.len();
        if n > 0 {
            proof {
                assert(self@.words.last() == self@.words[n - 1]);
            }
            self.words[0].span.merge(self.words[n - 1].span)
        } else {
            self.span
        }
    }
}

/// A copy of interpolation parts.
pub fn clone_parts(v: &Vec<InterpPart>) -> (r: Vec<InterpPart>)
    ensures
        lex::parts_view(r@) == lex::parts_view(v@),
{
    let mut out: Vec<InterpPart> = Vec::new();
    let mut i: usize = 0;
    while i < v.len()
        invariant
            i <= v@.len(),
            out@.len() == i,
            forall|j: int| 0 <= j < i ==> (#[trigger] out@[j])@ == v@[j]@,
        decreases v@.len() - i,
    {
        out.push(
            match &v[i] {
                InterpPart::Lit(s) => InterpPart::Lit(s.clone()),
                InterpPart::Var(s) => InterpPart::Var(s.clone()),
            },
        );
        i = i + 1;
    }
    proof {
        assert(lex::parts_view(out@) =~= lex::parts_view(v@));
    }
    out
}

impl Clone for Expr {
    fn clone(&self) -> (r: Self)
        ensures
            r@ == self@,
        decreases self,
    {
        match self {
            Expr::Literal(v, span) => Expr::Literal(v.clone(), *span),
            Expr::Bareword(w, span) => Expr::Bareword(w.clone(), *span),
            Expr::StrInterp(parts, span) => Expr::StrInterp(clone_parts(parts), *span),
            Expr::Var(name, span) => Expr::Var(name.clone(), *span),
            Expr::Field { base, path, span } => Expr::Field {
                base: Box::new((**base).clone()),
                path: text::clone_texts(path),
                span: *span,
            },
            Expr::Binary { op, lhs, rhs, span } => Expr::Binary {
                op: *op,
                lhs: Box::new((**lhs).clone()),
                rhs: Box::new((**rhs).clone()),
                span: *span,
            },
            Expr::Unary { op, operand, span } => Expr::Unary {
                op: *op,
                operand: Box::new((**operand).clone()),
                span: *span,
            },
            Expr::Closure(c, span) => Expr::Closure(
                Box::new(Closure { params: text::clone_texts(&c.params), body: c.body.clone() }),
                *span,
            ),
        }
    }
}

impl Clone for Closure {
    fn clone(&self) -> (r: Self)
        ensures
            r@ == self@,
    {
        Closure { params: text::clone_texts(&self.params), body: self.body.clone() }
    }
}

impl Expr {
    pub fn span(&self) -> (r: Span)
        ensures
            r == span_of_expr(self@),
    {
        match self {
            Expr::Literal(_, s) => *s,
            Expr::Bareword(_, s) => *s,
            Expr::StrInterp(_, s) => *s,
            Expr::Var(_, s) => *s,
            Expr::Field { span, .. } => *span,
            Expr::Binary { span, .. } => *span,
            Expr::Unary { span, .. } => *span,
            Expr::Closure(_, s) => *s,
        }
    }

    /// Closure literals are the only expression that can't be reduced to a
    /// `Value`; binding routes them separately.
    pub fn as_closure(&self) -> (r: Option<&Closure>)
        ensures
            match r {
                Some(c) => self@ is Closure && *self@->Closure_0 == c@,
                None => !(self@ is Closure),
            },
    {
        match self {
            Expr::Closure(c, _) => Some(&**c),
            _ => None,
        }
    }
}

} // verus!
