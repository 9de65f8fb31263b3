//! The commands that take their input item by item.

use crate::ask;
use crate::ask::{Query, QueryView, Replies, Reply, ReplySeq, ReplyView, Stop, StopView, Ticket};
use crate::builtins::collect;
use crate::builtins::select;
use crate::builtins::Builtin;
use crate::callable;
use crate::callable::{Selector, SelectorView};
use crate::error::{ErrorKind, ErrorView, ShellError, Span};
use crate::registry::{DataView, PipelineData};
use crate::render;
use crate::signature::{BoundCall, BoundCallView};
use crate::text;
use crate::value;
use crate::value::{Fields, Value, ValueView};
use vstd::prelude::*;

verus! {

broadcast use crate::value::value_view_cases;

/// A streaming command that has started.
///
/// `map` projects each item; `filter` keeps items whose predicate is truthy.
/// Together with `--on` these are the composable half of the story: `--on`
/// changes what a command *looks at* while keeping the row, `map` changes
/// what flows downstream. There is no whole list to check up front, so a bad
/// field name surfaces per item instead of as an up-front scan.
pub enum Work {
    MapEach(Selector),
    Filter(Selector, bool),
    Grep(u64, Option<Selector>, bool),
    /// How many items to take, and how many were taken.
    Head(usize, usize),
}

pub enum WorkView {
    MapEach(SelectorView),
    Filter(SelectorView, bool),
    Grep(u64, Option<SelectorView>, bool),
    Head(usize, usize),
}

impl View for Work {
    type V = WorkView;

    open spec fn view(&self) -> WorkView {
        match *self {
            Work::MapEach(s) => WorkView::MapEach(s@),
            Work::Filter(s, invert) => WorkView::Filter(s@, invert),
            Work::Grep(p, None, invert) => WorkView::Grep(p, None, invert),
            Work::Grep(p, Some(s), invert) => WorkView::Grep(p, Some(s@), invert),
            Work::Head(limit, taken) => WorkView::Head(limit, taken),
        }
    }
}

pub open spec fn invert_asked(call: BoundCallView) -> bool {
    value::lookup(call.flags, "invert"@) == Some(ValueView::Bool(true))
}

/// The pattern of a `grep`.
pub open spec fn pattern_choice(call: BoundCallView, replies: ReplySeq) -> Result<u64, StopView> {
    let source = select::first_text(call);
    let query = QueryView::CompilePattern(
        source,
        value::lookup(call.flags, "ignore-case"@) == Some(ValueView::Bool(true)),
    );
    match ask::reply_to(replies, query) {
        Some(ReplyView::Handle(h)) => Ok(h),
        Some(ReplyView::Refused(msg)) => match ask::text_answer(
            replies,
            QueryView::PatternDialect,
        ) {
            Ok(dialect) => Err(
                StopView::Fail(
                    ErrorView::at(
                        ErrorKind::Binding,
                        "invalid "@ + dialect + " pattern `"@ + source + "`: "@ + msg,
                        call.head_span,
                    ),
                ),
            ),
            Err(e) => Err(e),
        },
        _ => Err(StopView::Need(query)),
    }
}

fn choose_pattern(call: &BoundCall, replies: &Replies) -> (r: Result<u64, Stop>)
    ensures
        match r {
            Ok(h) => pattern_choice(call@, replies@) == Ok::<u64, StopView>(h),
            Err(e) => pattern_choice(call@, replies@) == Err::<u64, StopView>(e@),
        },
{
    let source = select::take_first_text(call);
    let insensitive = call.has_flag("ignore-case");
    let query = Query::CompilePattern(source.clone(), insensitive);
    match replies.find(&query) {
        Some(Reply::Handle(h)) => Ok(*h),
        Some(Reply::Refused(m)) => match ask::ask_text(replies, Query::PatternDialect) {
            Ok(dialect) => {
                let mut msg = text::around("invalid ", dialect.as_str(), " pattern `");
                msg.append(source.as_str());
                msg.append("`: ");
                msg.append(m.as_str());
                Err(
                    Stop::Fail(
                        ShellError::new(ErrorKind::Binding, msg.as_str()).with_span(
                            call.head_span,
                        ),
                    ),
                )
            },
            Err(e) => Err(e),
        },
        _ => Err(Stop::Need(query)),
    }
}

/// A streaming command as it starts.
pub open spec fn started(which: Builtin, call: BoundCallView, replies: ReplySeq) -> Result<
    WorkView,
    StopView,
> {
    match which {
        Builtin::MapEach => match select::positional_choice(call, "selector"@, replies) {
            Ok(s) => Ok(WorkView::MapEach(s)),
            Err(e) => Err(e),
        },
        Builtin::Filter => match select::positional_choice(call, "predicate"@, replies) {
            Ok(s) => Ok(WorkView::Filter(s, invert_asked(call))),
            Err(e) => Err(e),
        },
        Builtin::Grep => match select::on_choice(call, replies) {
            Err(e) => Err(e),
            Ok(sel) => match pattern_choice(call, replies) {
                Ok(p) => Ok(WorkView::Grep(p, sel, invert_asked(call))),
                Err(e) => Err(e),
            },
        },
        _ => match select::count_asked(call) {
            Ok(Some(n)) => Ok(WorkView::Head(n, 0)),
            Ok(None) => Ok(WorkView::Head(1, 0)),
            Err(e) => Err(StopView::Fail(e)),
        },
    }
}

/// Does a text match the host's pattern?
pub open spec fn matched(pattern: u64, s: Seq<char>, replies: ReplySeq) -> Result<bool, StopView> {
    match ask::reply_to(replies, QueryView::Match(pattern, s)) {
        Some(ReplyView::Truth(b)) => Ok(b),
        _ => Err(StopView::Need(QueryView::Match(pattern, s))),
    }
}

/// Does the text that a value displays as match the pattern?
pub open spec fn shown_matches(pattern: u64, v: ValueView, replies: ReplySeq) -> Result<
    bool,
    StopView,
> {
    match render::plain_text(v, replies) {
        Ok(t) => matched(pattern, t, replies),
        Err(e) => Err(e),
    }
}

/// Does any cell from the `i`-th on match the pattern?
pub open spec fn any_cell(
    pattern: u64,
    fields: Seq<(Seq<char>, ValueView)>,
    i: int,
    replies: ReplySeq,
) -> Result<bool, StopView>
    decreases fields.len() - i,
{
    if 0 <= i < fields.len() {
        match shown_matches(pattern, fields[i].1, replies) {
            Ok(true) => Ok(true),
            Ok(false) => any_cell(pattern, fields, i + 1, replies),
            Err(e) => Err(e),
        }
    } else {
        Ok(false)
    }
}

/// Does an item pass a test? With inversion it passes where it fails.
pub open spec fn kept(hit: Result<bool, StopView>, invert: bool, v: ValueView) -> Result<
    Option<DataView>,
    StopView,
> {
    match hit {
        Ok(b) => if b != invert {
            Ok(Some(DataView::Value(v)))
        } else {
            Ok(None)
        },
        Err(e) => Err(e),
    }
}

/// What `grep` tests: the `--on` projection, or every cell of a row, or the
/// item itself, each as the text it displays as.
pub open spec fn grep_hit(
    pattern: u64,
    sel: Option<SelectorView>,
    v: ValueView,
    span: Span,
    ticket: Ticket,
    replies: ReplySeq,
) -> Result<bool, StopView> {
    match sel {
        Some(s) => match select::projected(s, v, span, ticket, replies) {
            Ok(p) => shown_matches(pattern, p, replies),
            Err(e) => Err(e),
        },
        None => match v {
            ValueView::Record(fields) => any_cell(pattern, fields, 0, replies),
            scalar => shown_matches(pattern, scalar, replies),
        },
    }
}

/// What a filter's predicate says of an item.
pub open spec fn filter_hit(
    sel: SelectorView,
    v: ValueView,
    span: Span,
    ticket: Ticket,
    replies: ReplySeq,
) -> Result<bool, StopView> {
    match select::projected(sel, v, span, ticket, replies) {
        Ok(p) => Ok(callable::truthy(p)),
        Err(e) => Err(e),
    }
}

/// What a streaming command sends on for an item.
#[verifier::opaque]
pub open spec fn handled(
    work: WorkView,
    item: DataView,
    span: Span,
    step: u64,
    replies: ReplySeq,
) -> Result<Option<DataView>, StopView> {
    let v = item.value();
    let ticket = Ticket { step, nth: 0 };
    match work {
        WorkView::MapEach(sel) => match select::projected(sel, v, span, ticket, replies) {
            Ok(p) => Ok(Some(DataView::Value(p))),
            Err(e) => Err(e),
        },
        WorkView::Filter(sel, invert) => kept(
            filter_hit(sel, v, span, ticket, replies),
            invert,
            v,
        ),
        WorkView::Grep(pattern, sel, invert) => kept(
            grep_hit(pattern, sel, v, span, ticket, replies),
            invert,
            v,
        ),
        WorkView::Head(_, _) => Ok(Some(item)),
    }
}

/// `filter` and `filter -v` share the items out between them: where the
/// predicate has a verdict, exactly one of the two keeps an item, and it keeps
/// it as it is. The same holds of `grep` and `grep -v`.
pub proof fn inversion_complements(
    sel: SelectorView,
    pattern: u64,
    on: Option<SelectorView>,
    item: DataView,
    span: Span,
    step: u64,
    replies: ReplySeq,
)
    ensures
        ({
            let ticket = Ticket { step, nth: 0 };
            let plain = handled(WorkView::Filter(sel, false), item, span, step, replies);
            let inverted = handled(WorkView::Filter(sel, true), item, span, step, replies);
            let here = Ok::<Option<DataView>, StopView>(Some(DataView::Value(item.value())));
            let gone = Ok::<Option<DataView>, StopView>(None);
            filter_hit(sel, item.value(), span, ticket, replies) is Ok ==> (plain == here
                && inverted == gone) || (plain == gone && inverted == here)
        }),
        ({
            let ticket = Ticket { step, nth: 0 };
            let plain = handled(WorkView::Grep(pattern, on, false), item, span, step, replies);
            let inverted = handled(WorkView::Grep(pattern, on, true), item, span, step, replies);
            let here = Ok::<Option<DataView>, StopView>(Some(DataView::Value(item.value())));
            let gone = Ok::<Option<DataView>, StopView>(None);
            grep_hit(pattern, on, item.value(), span, ticket, replies) is Ok ==> (plain == here
                && inverted == gone) || (plain == gone && inverted == here)
        }),
{
    reveal(handled);
}

fn shown_match(pattern: u64, v: &Value, replies: &Replies) -> (r: Result<bool, Stop>)
    ensures
        match r {
            Ok(b) => shown_matches(pattern, v@, replies@) == Ok::<bool, StopView>(b),
            Err(e) => shown_matches(pattern, v@, replies@) == Err::<bool, StopView>(e@),
        },
{
    match render::plain(v, replies) {
        Ok(t) => {
            let query = Query::Match(pattern, t);
            match replies.find(&query) {
                Some(Reply::Truth(b)) => Ok(*b),
                _ => Err(Stop::Need(query)),
            }
        },
        Err(e) => Err(e),
    }
}

fn match_any_cell(pattern: u64, fields: &Fields, replies: &Replies) -> (r: Result<bool, Stop>)
    ensures
        match r {
            Ok(b) => any_cell(pattern, fields@, 0, replies@) == Ok::<bool, StopView>(b),
            Err(e) => any_cell(pattern, fields@, 0, replies@) == Err::<bool, StopView>(e@),
        },
{
    let n: usize = fields.len();
    let mut i: usize = 0;
    while i < n
        invariant
            i <= n,
            n == fields@.len(),
            any_cell(pattern, fields@, 0, replies@) == any_cell(
                pattern,
                fields@,
                i as int,
                replies@,
            ),
        decreases n - i,
    {
        match shown_match(pattern, fields.at(i), replies) {
            Ok(b) => {
                if b {
                    return Ok(true);
                }
            },
            Err(e) => {
                return Err(e);
            },
        }
        i = i + 1;
    }
    Ok(false)
}

fn grep_test(
    pattern: u64,
    sel: &Option<Selector>,
    v: &Value,
    span: Span,
    ticket: Ticket,
    replies: &Replies,
) -> (r: Result<bool, Stop>)
    ensures
        ({
            let goal = grep_hit(
                pattern,
                match *sel {
                    Some(s) => Some(s@),
                    None => None,
                },
                v@,
                span,
                ticket,
                replies@,
            );
            match r {
                Ok(b) => goal == Ok::<bool, StopView>(b),
                Err(e) => goal == Err::<bool, StopView>(e@),
            }
        }),
{
    match sel {
        Some(s) => match select::project(s, v, span, ticket, replies) {
            Ok(p) => shown_match(pattern, &p, replies),
            Err(e) => Err(e),
        },
        None => match v {
            Value::Record(fields) => match_any_cell(pattern, fields, replies),
            _ => shown_match(pattern, v, replies),
        },
    }
}

/// An item to send on, none, or why there is no answer.
pub open spec fn sent_result(r: Result<Option<PipelineData>, Stop>) -> Result<
    Option<DataView>,
    StopView,
> {
    match r {
        Ok(Some(d)) => Ok(Some(d@)),
        Ok(None) => Ok(None),
        Err(e) => Err(e@),
    }
}

impl Work {
    /// Start a streaming command.
    pub fn start(which: Builtin, call: &BoundCall, replies: &Replies) -> (r: Result<Work, Stop>)
        requires
            collect::streams(which),
        ensures
            match r {
                Ok(w) => started(which, call@, replies@) == Ok::<WorkView, StopView>(w@),
                Err(e) => started(which, call@, replies@) == Err::<WorkView, StopView>(e@),
            },
    {
        match which {
            Builtin::MapEach => match select::positional_selector(call, "selector", replies) {
                Ok(s) => Ok(Work::MapEach(s)),
                Err(e) => Err(e),
            },
            Builtin::Filter => match select::positional_selector(call, "predicate", replies) {
                Ok(s) => Ok(Work::Filter(s, call.has_flag("invert"))),
                Err(e) => Err(e),
            },
            Builtin::Grep => {
                let invert = call.has_flag("invert");
                match select::on_selector(call, replies) {
                    Err(e) => Err(e),
                    Ok(sel) => match choose_pattern(call, replies) {
                        Ok(p) => Ok(Work::Grep(p, sel, invert)),
                        Err(e) => Err(e),
                    },
                }
            },
            _ => match select::take_n(call) {
                Ok(Some(n)) => Ok(Work::Head(n, 0)),
                Ok(None) => Ok(Work::Head(1, 0)),
                Err(e) => Err(Stop::Fail(e)),
            },
        }
    }

    /// Take one item: what to send on for it, if anything.
    pub fn handle(&self, item: &PipelineData, span: Span, step: u64, replies: &Replies) -> (r:
        Result<Option<PipelineData>, Stop>)
        ensures
            sent_result(r) == handled(self@, item@, span, step, replies@),
    {
        proof {
            reveal(handled);
        }
        let ticket = Ticket { step, nth: 0 };
        match self {
            Work::Head(_, _) => Ok(Some(item.clone())),
            Work::MapEach(sel) => {
                let v = item.clone().into_value();
                match select::project(sel, &v, span, ticket, replies) {
                    Ok(p) => Ok(Some(PipelineData::Value(p))),
                    Err(e) => Err(e),
                }
            },
            Work::Filter(sel, invert) => {
                let v = item.clone().into_value();
                match select::project(sel, &v, span, ticket, replies) {
                    Ok(p) => if callable::is_truthy(&p) != *invert {
                        Ok(Some(PipelineData::Value(v)))
                    } else {
                        Ok(None)
                    },
                    Err(e) => Err(e),
                }
            },
            Work::Grep(pattern, sel, invert) => {
                let v = item.clone().into_value();
                match grep_test(*pattern, sel, &v, span, ticket, replies) {
                    Ok(b) => if b != *invert {
                        Ok(Some(PipelineData::Value(v)))
                    } else {
                        Ok(None)
                    },
                    Err(e) => Err(e),
                }
            },
        }
    }
}

} // verus!
