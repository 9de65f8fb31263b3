//! Questions for the program around the library. Floating-point arithmetic,
//! the text of a float, JSON, the functions and patterns of the host page and
//! the services of the terminal that a command runs in are outside it: a
//! computation that needs such a result looks it up among the replies it was
//! given and, where there is none yet, stops with the query. The program
//! answers, adds the reply and runs the computation again.

use crate::error::{ErrorView, ShellError};
use crate::float::Float;
use crate::mux::share::Share;
use crate::registry;
use crate::registry::{MuxAction, MuxActionView, VisibleVar, VisibleView};
use crate::signature;
use crate::text;
use crate::value::{Value, ValueView};
use vstd::prelude::*;

verus! {

/// An operation on two floats.
#[derive(Clone, Copy, Debug, PartialEq, Eq, Structural)]
pub enum FloatOp {
    Add,
    Sub,
    Mul,
    Div,
    Rem,
}

/// Tells one request to the host from another, so that each is made once: the
/// step of the run that makes it, and the place among the step's requests.
#[derive(Clone, Copy, Debug, PartialEq, Eq, Structural)]
pub struct Ticket {
    pub step: u64,
    pub nth: u64,
}

/// A question to the program around the library.
#[derive(Debug)]
pub enum Query {
    /// The float that a text denotes; refused where it denotes none.
    ParseFloat(String),
    /// The shortest text that denotes a float.
    ShowFloat(Float),
    /// The result of a floating-point operation.
    Compute(FloatOp, Float, Float),
    /// The result of an operation on two shares of a layout.
    Share(FloatOp, Share, Share),
    /// A value as JSON text, indented or not.
    WriteJson(Value, bool),
    /// The value that a JSON text denotes; refused where it is malformed.
    ReadJson(String),
    /// A handle for the function that inline source compiles to.
    CompileFn(String),
    /// A handle for the function registered under a name.
    LookupFn(String),
    /// What a host function returns for an item.
    CallFn(u64, Ticket, Value),
    /// A handle for a search pattern, case-insensitive or not.
    CompilePattern(String, bool),
    /// Does a text match a pattern?
    Match(u64, String),
    /// `regex` or `substring`: what the host's patterns are.
    PatternDialect,
    /// The shell's history, newest last.
    History,
    /// The variables that the shell sees.
    Vars(Ticket),
    /// (name, summary) for every registered command.
    HelpOverview,
    /// The help page of a command; refused where there is none.
    HelpFor(String),
    /// Wipe the screen.
    Clear(Ticket),
    /// Apply a multiplexer action.
    Mux(Ticket, MuxAction),
    /// The value that a redirect reads from a target.
    ReadFrom(Ticket, String),
    /// Write a value to the target of a redirect, or append it.
    WriteTo(Ticket, String, Value, bool),
}

/// An answer to a query.
#[derive(Debug)]
pub enum Reply {
    Float(Float),
    Share(Share),
    Text(String),
    Value(Value),
    Handle(u64),
    Truth(bool),
    Texts(Vec<String>),
    Listing(Vec<(String, String)>),
    Vars(Vec<VisibleVar>),
    Done,
    Refused(String),
    Failed(ShellError),
}

/// Why a computation did not finish.
#[derive(Debug)]
pub enum Stop {
    /// It failed.
    Fail(ShellError),
    /// It needs a reply.
    Need(Query),
}

pub enum QueryView {
    ParseFloat(Seq<char>),
    ShowFloat(Float),
    Compute(FloatOp, Float, Float),
    Share(FloatOp, Share, Share),
    WriteJson(ValueView, bool),
    ReadJson(Seq<char>),
    CompileFn(Seq<char>),
    LookupFn(Seq<char>),
    CallFn(u64, Ticket, ValueView),
    CompilePattern(Seq<char>, bool),
    Match(u64, Seq<char>),
    PatternDialect,
    History,
    Vars(Ticket),
    HelpOverview,
    HelpFor(Seq<char>),
    Clear(Ticket),
    Mux(Ticket, MuxActionView),
    ReadFrom(Ticket, Seq<char>),
    WriteTo(Ticket, Seq<char>, ValueView, bool),
}

pub enum ReplyView {
    Float(Float),
    Share(Share),
    Text(Seq<char>),
    Value(ValueView),
    Handle(u64),
    Truth(bool),
    Texts(Seq<Seq<char>>),
    Listing(Seq<(Seq<char>, Seq<char>)>),
    Vars(Seq<VisibleView>),
    Done,
    Refused(Seq<char>),
    Failed(ErrorView),
}

pub enum StopView {
    Fail(ErrorView),
    Need(QueryView),
}

impl View for Query {
    type V = QueryView;

    open spec fn view(&self) -> QueryView {
        match *self {
            Query::ParseFloat(s) => QueryView::ParseFloat(s@),
            Query::ShowFloat(f) => QueryView::ShowFloat(f),
            Query::Compute(op, a, b) => QueryView::Compute(op, a, b),
            Query::Share(op, a, b) => QueryView::Share(op, a, b),
            Query::WriteJson(v, pretty) => QueryView::WriteJson(v@, pretty),
            Query::ReadJson(s) => QueryView::ReadJson(s@),
            Query::CompileFn(s) => QueryView::CompileFn(s@),
            Query::LookupFn(s) => QueryView::LookupFn(s@),
            Query::CallFn(f, n, v) => QueryView::CallFn(f, n, v@),
            Query::CompilePattern(s, i) => QueryView::CompilePattern(s@, i),
            Query::Match(p, s) => QueryView::Match(p, s@),
            Query::PatternDialect => QueryView::PatternDialect,
            Query::History => QueryView::History,
            Query::Vars(n) => QueryView::Vars(n),
            Query::HelpOverview => QueryView::HelpOverview,
            Query::HelpFor(s) => QueryView::HelpFor(s@),
            Query::Clear(n) => QueryView::Clear(n),
            Query::Mux(n, a) => QueryView::Mux(n, a@),
            Query::ReadFrom(n, s) => QueryView::ReadFrom(n, s@),
            Query::WriteTo(n, s, v, append) => QueryView::WriteTo(n, s@, v@, append),
        }
    }
}

impl View for Reply {
    type V = ReplyView;

    open spec fn view(&self) -> ReplyView {
        match *self {
            Reply::Float(f) => ReplyView::Float(f),
            Reply::Share(x) => ReplyView::Share(x),
            Reply::Text(s) => ReplyView::Text(s@),
            Reply::Value(v) => ReplyView::Value(v@),
            Reply::Handle(h) => ReplyView::Handle(h),
            Reply::Truth(b) => ReplyView::Truth(b),
            Reply::Texts(v) => ReplyView::Texts(text::texts(v@)),
            Reply::Listing(v) => ReplyView::Listing(signature::subs_view(v@)),
            Reply::Vars(v) => ReplyView::Vars(registry::visibles_view(v@)),
            Reply::Done => ReplyView::Done,
            Reply::Refused(s) => ReplyView::Refused(s@),
            Reply::Failed(e) => ReplyView::Failed(e@),
        }
    }
}

impl View for Stop {
    type V = StopView;

    open spec fn view(&self) -> StopView {
        match *self {
            Stop::Fail(e) => StopView::Fail(e@),
            Stop::Need(q) => StopView::Need(q@),
        }
    }
}

/// The replies at hand.
#[derive(Debug)]
pub struct Replies {
    entries: Vec<(Query, Reply)>,
}

/// The replies as a sequence of answered queries.
pub type ReplySeq = Seq<(QueryView, ReplyView)>;

impl View for Replies {
    type V = ReplySeq;

    closed spec fn view(&self) -> ReplySeq {
        Seq::new(self.entries@.len(), |i: int| (self.entries@[i].0@, self.entries@[i].1@))
    }
}

/// The first reply to a query.
pub open spec fn reply_to(replies: ReplySeq, query: QueryView) -> Option<ReplyView>
    decreases replies.len(),
{
    if replies.len() == 0 {
        None
    } else {
        match reply_to(replies.drop_last(), query) {
            Some(r) => Some(r),
            None => if replies.last().0 == query {
                Some(replies.last().1)
            } else {
                None
            },
        }
    }
}

/// A reply that is there stays the reply, whatever replies are added.
pub proof fn replies_are_stable(replies: ReplySeq, more: ReplySeq, query: QueryView)
    requires
        reply_to(replies, query) is Some,
    ensures
        reply_to(replies + more, query) == reply_to(replies, query),
    decreases more.len(),
{
    if more.len() == 0 {
        assert(replies + more =~= replies);
    } else {
        replies_are_stable(replies, more.drop_last(), query);
        assert((replies + more).drop_last() =~= replies + more.drop_last());
    }
}

proof fn reply_is_first(replies: ReplySeq, query: QueryView, i: int)
    requires
        0 <= i < replies.len(),
        replies[i].0 == query,
        forall|j: int| 0 <= j < i ==> (#[trigger] replies[j]).0 != query,
    ensures
        reply_to(replies, query) == Some(replies[i].1),
    decreases replies.len(),
{
    if i < replies.len() - 1 {
        reply_is_first(replies.drop_last(), query, i);
    } else {
        no_reply(replies.drop_last(), query);
    }
}

proof fn no_reply(replies: ReplySeq, query: QueryView)
    requires
        forall|j: int| 0 <= j < replies.len() ==> (#[trigger] replies[j]).0 != query,
    ensures
        reply_to(replies, query) is None,
    decreases replies.len(),
{
    if replies.len() > 0 {
        assert(replies.last() == replies[replies.len() - 1]);
        no_reply(replies.drop_last(), query);
    }
}

impl Query {
    /// Do two queries ask the same?
    pub fn same(&self, other: &Query) -> (r: bool)
        ensures
            r == (self@ == other@),
    {
        match (self, other) {
            (Query::ParseFloat(a), Query::ParseFloat(b)) => text::same_text(a.as_str(), b.as_str()),
            (Query::ShowFloat(a), Query::ShowFloat(b)) => *a == *b,
            (Query::Compute(o, a, b), Query::Compute(p, c, d)) => *o == *p && *a == *c && *b == *d,
            (Query::Share(o, a, b), Query::Share(p, c, d)) => *o == *p && *a == *c && *b == *d,
            (Query::WriteJson(a, p), Query::WriteJson(b, q)) => *p == *q && a.identical(b),
            (Query::ReadJson(a), Query::ReadJson(b)) => text::same_text(a.as_str(), b.as_str()),
            (Query::CompileFn(a), Query::CompileFn(b)) => text::same_text(a.as_str(), b.as_str()),
            (Query::LookupFn(a), Query::LookupFn(b)) => text::same_text(a.as_str(), b.as_str()),
            (Query::CallFn(f, n, a), Query::CallFn(g, m, b)) => *f == *g && *n == *m
                && a.identical(b),
            (Query::CompilePattern(a, i), Query::CompilePattern(b, j)) => *i == *j
                && text::same_text(a.as_str(), b.as_str()),
            (Query::Match(p, a), Query::Match(q, b)) => *p == *q && text::same_text(
                a.as_str(),
                b.as_str(),
            ),
            (Query::PatternDialect, Query::PatternDialect) => true,
            (Query::History, Query::History) => true,
            (Query::Vars(n), Query::Vars(m)) => *n == *m,
            (Query::HelpOverview, Query::HelpOverview) => true,
            (Query::HelpFor(a), Query::HelpFor(b)) => text::same_text(a.as_str(), b.as_str()),
            (Query::Clear(n), Query::Clear(m)) => *n == *m,
            (Query::Mux(n, a), Query::Mux(m, b)) => *n == *m && a.same(b),
            (Query::ReadFrom(n, a), Query::ReadFrom(m, b)) => *n == *m && text::same_text(
                a.as_str(),
                b.as_str(),
            ),
            (Query::WriteTo(n, a, v, p), Query::WriteTo(m, b, w, q)) => *n == *m && *p == *q
                && text::same_text(a.as_str(), b.as_str()) && v.identical(w),
            _ => false,
        }
    }
}

impl Replies {
    pub fn new() -> (r: Self)
        ensures
            r@.len() == 0,
    {
        Replies { entries: Vec::new() }
    }

    /// Add a reply. It counts where the query had none.
    pub fn add_reply(&mut self, query: Query, reply: Reply)
        ensures
            final(self)@ == old(self)@.push((query@, reply@)),
    {
        self.entries.push((query, reply));
        proof {
            assert(self@ =~= old(self)@.push((query@, reply@)));
        }
    }

    /// The reply to a query.
    pub fn find(&self, query: &Query) -> (r: Option<&Reply>)
        ensures
            match r {
                Some(reply) => reply_to(self@, query@) == Some(reply@),
                None => reply_to(self@, query@) is None,
            },
    {
        let mut i: usize = 0;
        while i < self.entries.len()
            invariant
                i <= self.entries@.len(),
                forall|j: int| 0 <= j < i ==> (#[trigger] self@[j]).0 != query@,
            decreases self.entries@.len() - i,
        {
            if self.entries[i].0.same(query) {
                proof {
                    reply_is_first(self@, query@, i as int);
                }
                return Some(&self.entries[i].1);
            }
            i = i + 1;
        }
        proof {
            no_reply(self@, query@);
        }
        None
    }
}

/// The outcome of a query that is answered with a float.
pub open spec fn float_answer(replies: ReplySeq, query: QueryView) -> Result<Float, StopView> {
    match reply_to(replies, query) {
        Some(ReplyView::Float(f)) => Ok(f),
        _ => Err(StopView::Need(query)),
    }
}

/// The outcome of a query that is answered with a text.
pub open spec fn text_answer(replies: ReplySeq, query: QueryView) -> Result<Seq<char>, StopView> {
    match reply_to(replies, query) {
        Some(ReplyView::Text(s)) => Ok(s),
        _ => Err(StopView::Need(query)),
    }
}

/// Ask for a float.
pub fn ask_float(replies: &Replies, query: Query) -> (r: Result<Float, Stop>)
    ensures
        match r {
            Ok(f) => float_answer(replies@, query@) == Ok::<Float, StopView>(f),
            Err(e) => float_answer(replies@, query@) == Err::<Float, StopView>(e@),
        },
{
    match replies.find(&query) {
        Some(Reply::Float(f)) => Ok(*f),
        _ => Err(Stop::Need(query)),
    }
}

/// Ask for a text.
pub fn ask_text(replies: &Replies, query: Query) -> (r: Result<String, Stop>)
    ensures
        match r {
            Ok(s) => text_answer(replies@, query@) == Ok::<Seq<char>, StopView>(s@),
            Err(e) => text_answer(replies@, query@) == Err::<Seq<char>, StopView>(e@),
        },
{
    match replies.find(&query) {
        Some(Reply::Text(s)) => Ok(s.clone()),
        _ => Err(Stop::Need(query)),
    }
}

} // verus!
