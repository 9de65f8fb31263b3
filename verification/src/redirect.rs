//! Host-defined structured redirection. Targets have no built-in file
//! semantics: the host reads and writes whole values under a name.

use crate::ask;
use crate::ask::{Query, QueryView, Reply, ReplyView, Stop, StopView, Ticket};
use crate::ast;
use crate::ast::{Expr, ExprView, Redirects, RedirectsView};
use crate::error::{ErrorKind, ShellError, Span};
use crate::eval;
use crate::expr;
use crate::pipeline;
use crate::pipeline::{Env, EnvView, PipelineRun, Yield};
use crate::registry;
use crate::registry::{DataView, PipelineData};
use crate::render;
use crate::signature;
use crate::stream;
use crate::value;
use crate::value::{Value, ValueView};
use vstd::prelude::*;

verus! {

broadcast use crate::value::value_view_cases;

/// Where the result of a pipeline goes.
#[derive(Debug)]
pub struct Destination {
    pub name: String,
    pub append: bool,
    /// Where the line names the target.
    pub span: Span,
}

pub struct DestinationView {
    pub name: Seq<char>,
    pub append: bool,
    pub span: Span,
}

impl View for Destination {
    type V = DestinationView;

    open spec fn view(&self) -> DestinationView {
        DestinationView { name: self.name@, append: self.append, span: self.span }
    }
}

pub open spec fn opt_destination(d: Option<Destination>) -> Option<DestinationView> {
    match d {
        Some(d) => Some(d@),
        None => None,
    }
}

/// The name that a target denotes.
pub open spec fn target_name(target: ExprView, env: EnvView) -> Result<Seq<char>, StopView> {
    match signature::arg_value(target, env.scope, env.replies) {
        Ok(ValueView::Str(s)) => Ok(s),
        Ok(v) => Err(
            expr::type_error(
                "a redirect target must be a string, found "@ + value::type_label_of(v),
                ast::span_of_expr(target),
            ),
        ),
        Err(e) => Err(e),
    }
}

/// The name to read from, where there is one.
pub open spec fn source_name(r: RedirectsView, env: EnvView) -> Result<Option<Seq<char>>, StopView> {
    match r.input {
        None => Ok(None),
        Some(target) => match target_name(target, env) {
            Ok(name) => Ok(Some(name)),
            Err(e) => Err(e),
        },
    }
}

/// Where the result goes, if anywhere.
pub open spec fn destination(r: RedirectsView, env: EnvView) -> Result<
    Option<DestinationView>,
    StopView,
> {
    match r.output {
        None => Ok(None),
        Some(o) => match target_name(o.target, env) {
            Ok(name) => Ok(
                Some(
                    DestinationView { name, append: o.append, span: ast::span_of_expr(o.target) },
                ),
            ),
            Err(e) => Err(e),
        },
    }
}

/// What a pipeline starts with: the value that it reads, and where its result
/// goes. Both targets are known before anything is read; an error of the host
/// stands at the target.
pub open spec fn opened(r: RedirectsView, step: u64, env: EnvView) -> Result<
    (Option<ValueView>, Option<DestinationView>),
    StopView,
> {
    match source_name(r, env) {
        Err(e) => Err(e),
        Ok(source) => match destination(r, env) {
            Err(e) => Err(e),
            Ok(to) => match source {
                None => Ok((None, to)),
                Some(name) => {
                    let query = QueryView::ReadFrom(Ticket { step, nth: 0 }, name);
                    let span = ast::span_of_expr(r.input->Some_0);
                    match ask::reply_to(env.replies, query) {
                        Some(ReplyView::Value(v)) => Ok((Some(v), to)),
                        Some(ReplyView::Failed(e)) => Err(StopView::Fail(e.placed(span))),
                        Some(ReplyView::Refused(s)) => Err(expr::runtime_error(s, span)),
                        _ => Err(StopView::Need(query)),
                    }
                },
            },
        },
    }
}

/// A pipeline's result as the value that is written: the list that the items
/// are those of, or what they make up by themselves.
pub open spec fn whole(yields: Seq<Yield>, out: Seq<DataView>) -> ValueView {
    if pipeline::spread(yields) {
        ValueView::List(stream::as_values(out))
    } else {
        eval::reported(out).value()
    }
}

/// What becomes of writing a value: done, or why not.
pub open spec fn stored(d: DestinationView, v: ValueView, step: u64, env: EnvView) -> Result<
    (),
    StopView,
> {
    let query = QueryView::WriteTo(Ticket { step, nth: 0 }, d.name, v, d.append);
    match ask::reply_to(env.replies, query) {
        Some(ReplyView::Done) => Ok(()),
        Some(ReplyView::Failed(e)) => Err(StopView::Fail(e.placed(d.span))),
        Some(ReplyView::Refused(s)) => Err(expr::runtime_error(s, d.span)),
        _ => Err(StopView::Need(query)),
    }
}

/// A target that is no string stops the pipeline before anything is read.
pub proof fn targets_are_checked_before_reading(r: RedirectsView, step: u64, env: EnvView)
    requires
        source_name(r, env) is Err || destination(r, env) is Err,
    ensures
        opened(r, step, env) is Err,
        opened(r, step, env)->Err_0 == (match source_name(r, env) {
            Err(e) => e,
            Ok(_) => destination(r, env)->Err_0,
        }),
{
}

/// Reading and writing keep a value's shape: what a pipeline hands on as it read
/// it is written as it was, lists of one item and of none among them.
pub proof fn what_is_read_is_written_back(v: ValueView)
    ensures
        whole(
            seq![pipeline::yield_of(DataView::Value(v))],
            stream::flattened(DataView::Value(v)),
        ) == v,
{
    let out = stream::flattened(DataView::Value(v));
    match v {
        ValueView::List(items) => {
            assert(stream::as_values(out) =~= items);
        },
        _ => {
            assert(out[0] == DataView::Value(v));
            assert(!(out[0] is Rendered));
        },
    }
}

/// A command that works item by item keeps what the items stand for.
pub proof fn item_commands_keep_the_shape(yields: Seq<Yield>, out: Seq<DataView>)
    ensures
        whole(yields.push(Yield::Same), out) == whole(yields, out),
{
    assert(yields.push(Yield::Same).drop_last() =~= yields);
}

fn resolve_target(target: &Expr, env: &Env) -> (r: Result<String, Stop>)
    ensures
        render::text_result(r) == target_name(target@, env@),
{
    match signature::eval_expr(target, env.scope, env.replies) {
        Ok(Value::Str(s)) => Ok(s),
        Ok(v) => {
            let mut m = "a redirect target must be a string, found ".to_owned();
            m.append(v.type_label());
            Err(Stop::Fail(ShellError::new(ErrorKind::Type, m.as_str()).with_span(target.span())))
        },
        Err(e) => Err(e),
    }
}

pub open spec fn opening(r: Result<(Option<Value>, Option<Destination>), Stop>) -> Result<
    (Option<ValueView>, Option<DestinationView>),
    StopView,
> {
    match r {
        Ok((v, d)) => Ok(
            (
                match v {
                    Some(v) => Some(v@),
                    None => None,
                },
                opt_destination(d),
            ),
        ),
        Err(e) => Err(e@),
    }
}

/// Resolve the targets of a pipeline, and read what it reads.
pub fn open(redirects: &Redirects, step: u64, env: &Env) -> (r: Result<
    (Option<Value>, Option<Destination>),
    Stop,
>)
    ensures
        opening(r) == opened(redirects@, step, env@),
{
    let mut source: Option<(String, Span)> = None;
    match &redirects.input {
        Some(target) => match resolve_target(target, env) {
            Ok(name) => {
                source = Some((name, target.span()));
            },
            Err(e) => {
                return Err(e);
            },
        },
        None => {},
    }
    let mut to: Option<Destination> = None;
    match &redirects.output {
        Some(o) => match resolve_target(&o.target, env) {
            Ok(name) => {
                to = Some(Destination { name, append: o.append, span: o.target.span() });
            },
            Err(e) => {
                return Err(e);
            },
        },
        None => {},
    }
    match source {
        None => Ok((None, to)),
        Some((name, span)) => {
            let query = Query::ReadFrom(Ticket { step, nth: 0 }, name);
            match env.replies.find(&query) {
                Some(Reply::Value(v)) => Ok((Some(v.clone()), to)),
                Some(Reply::Failed(e)) => Err(Stop::Fail(e.clone().with_span(span))),
                Some(Reply::Refused(s)) => Err(
                    Stop::Fail(ShellError::runtime(s.as_str()).with_span(span)),
                ),
                _ => Err(Stop::Need(query)),
            }
        },
    }
}

/// The value that a run that ended hands to its target.
pub fn whole_value(run: &PipelineRun) -> (r: Value)
    ensures
        r@ == whole(run@.yields, run@.out),
{
    let mut items: Vec<PipelineData> = Vec::new();
    let mut values: Vec<Value> = Vec::new();
    let mut i: usize = 0;
    while i < run.out.len()
        invariant
            i <= run.out@.len(),
            items@.len() == i,
            values@.len() == i,
            forall|k: int| 0 <= k < i ==> (#[trigger] items@[k])@ == run.out@[k]@,
            forall|k: int| 0 <= k < i ==> (#[trigger] values@[k])@ == run.out@[k]@.value(),
        decreases run.out@.len() - i,
    {
        items.push(run.out[i].clone());
        values.push(run.out[i].clone().into_value());
        i = i + 1;
    }
    proof {
        assert(registry::items_view(items@) =~= run@.out);
        assert(value::values_view(values@) =~= stream::as_values(run@.out));
    }
    if run.is_spread() {
        Value::List(values)
    } else {
        eval::report(items).into_value()
    }
}

/// Write a value to its target.
pub fn store(d: &Destination, v: Value, step: u64, env: &Env) -> (r: Result<(), Stop>)
    ensures
        match r {
            Ok(()) => stored(d@, v@, step, env@) is Ok,
            Err(e) => stored(d@, v@, step, env@) == Err::<(), StopView>(e@),
        },
{
    let query = Query::WriteTo(Ticket { step, nth: 0 }, d.name.clone(), v, d.append);
    match env.replies.find(&query) {
        Some(Reply::Done) => Ok(()),
        Some(Reply::Failed(e)) => Err(Stop::Fail(e.clone().with_span(d.span))),
        Some(Reply::Refused(s)) => Err(
            Stop::Fail(ShellError::runtime(s.as_str()).with_span(d.span)),
        ),
        _ => Err(Stop::Need(query)),
    }
}

} // verus!
