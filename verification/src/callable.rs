//! Selectors: the shared way a command says "look at *this part* of each
//! item." Backs the common `--on` parameter and `map`'s projection.
//!
//! A selector spec is one of three unambiguous forms:
//!
//! | spec | meaning |
//! |---|---|
//! | `href`, `user.name` | dotted field path into a record |
//! | `'(o) => o.id > 5'` | inline source, compiled by the host |
//! | `@byId` | a function the host registered under a name |
//!
//! Inline source is detected by `=>`, which no field path contains, and
//! named functions by a leading `@`. Everything else is a field path.
//!
//! Callables are supplied by the host — the browser compiles JavaScript,
//! while native hosts have no engine and say so. Closure literals of the
//! shell's own language need no host at all.

use crate::ask;
use crate::ask::{
    Query, QueryView, Replies, Reply, ReplySeq, ReplyView, Stop, StopView, Ticket,
};
use crate::expr;
use crate::expr::{NativeClosure, NativeClosureView};
use crate::text;
use crate::value;
use crate::value::{Value, ValueView};
use vstd::prelude::*;

verus! {

broadcast use crate::value::value_view_cases;

/// Truthiness mirrors JavaScript: `false`, `null`, `0`, not-a-number and `""`
/// are falsy; empty bytes, lists and records are truthy, matching JS objects.
pub open spec fn truthy(v: ValueView) -> bool {
    match v {
        ValueView::Null => false,
        ValueView::Bool(b) => b,
        ValueView::Int(n) => n != 0,
        ValueView::Float(f) => f.rank() != 0 && !f.nan(),
        ValueView::Str(s) => s.len() > 0,
        ValueView::Bytes(_) => true,
        ValueView::List(_) => true,
        ValueView::Record(_) => true,
    }
}

/// Truthiness for callables used as predicates.
pub fn is_truthy(value: &Value) -> (r: bool)
    ensures
        r == truthy(value@),
{
    match value {
        Value::Null => false,
        Value::Bool(b) => *b,
        Value::Int(n) => *n != 0,
        Value::Float(f) => !f.is_zero() && !f.is_nan(),
        Value::Str(s) => !s.as_str().is_empty(),
        Value::Bytes(_) => true,
        Value::List(_) => true,
        Value::Record(_) => true,
    }
}

/// Why a selector could not be resolved or applied: a message, or a reply that
/// is missing.
#[derive(Debug)]
pub enum Fault {
    Message(String),
    Need(Query),
}

pub enum FaultView {
    Message(Seq<char>),
    Need(QueryView),
}

impl View for Fault {
    type V = FaultView;

    open spec fn view(&self) -> FaultView {
        match *self {
            Fault::Message(s) => FaultView::Message(s@),
            Fault::Need(q) => FaultView::Need(q@),
        }
    }
}

/// Compiles inline callable source to a handle. Hosts without a language
/// engine return an error naming the alternative.
pub trait FnCompiler {
    /// What a source compiles to.
    spec fn compiled(&self, source: Seq<char>) -> Result<u64, Seq<char>>;

    /// Shown in help and errors: `javascript`, or `none`.
    spec fn dialect_name(&self) -> Seq<char>;

    fn compile(&self, source: &str) -> (r: Result<u64, String>)
        ensures
            match r {
                Ok(h) => self.compiled(source@) == Ok::<u64, Seq<char>>(h),
                Err(msg) => self.compiled(source@) == Err::<u64, Seq<char>>(msg@),
            },
    ;

    fn dialect(&self) -> (r: &'static str)
        ensures
            r@ == self.dialect_name(),
    ;
}

/// Default: no scripting engine (the native CLI and tests).
#[derive(Clone, Copy, Debug)]
pub struct NoFnCompiler;

impl FnCompiler for NoFnCompiler {
    open spec fn compiled(&self, source: Seq<char>) -> Result<u64, Seq<char>> {
        Err("inline functions need a JavaScript host; this shell is running natively"@)
    }

    open spec fn dialect_name(&self) -> Seq<char> {
        "none"@
    }

    fn compile(&self, source: &str) -> (r: Result<u64, String>) {
        Err("inline functions need a JavaScript host; this shell is running natively".to_owned())
    }

    fn dialect(&self) -> (r: &'static str) {
        "none"
    }
}

/// What a host that cannot register functions says of a name.
pub open spec fn no_function_text(name: Seq<char>) -> Seq<char> {
    "no registered function `"@ + name + "`; this host cannot register functions"@
}

/// Refuse a function name in a host that cannot register functions.
pub fn refuse_lookup(name: &str) -> (r: String)
    ensures
        r@ == no_function_text(name@),
{
    text::around("no registered function `", name, "`; this host cannot register functions")
}

/// What part of an item a command should operate on.
#[derive(Debug)]
pub enum Selector {
    /// The whole item — the default when `--on` is omitted.
    Identity,
    /// A dotted path into nested records. A missing field yields `Null`
    /// rather than erroring, so filters treat it as "no match" instead of
    /// blowing up a whole pipeline on one ragged row.
    Field(Vec<String>),
    /// A closure literal.
    Closure(NativeClosure),
    /// A function that the host keeps under a number.
    Callable(u64),
}

pub enum SelectorView {
    Identity,
    Field(Seq<Seq<char>>),
    Closure(NativeClosureView),
    Callable(u64),
}

impl View for Selector {
    type V = SelectorView;

    open spec fn view(&self) -> SelectorView {
        match *self {
            Selector::Identity => SelectorView::Identity,
            Selector::Field(path) => SelectorView::Field(text::texts(path@)),
            Selector::Closure(c) => SelectorView::Closure(c@),
            Selector::Callable(h) => SelectorView::Callable(h),
        }
    }
}

/// The outcome of asking the host for a function.
pub open spec fn function_answer(replies: ReplySeq, query: QueryView) -> Result<
    SelectorView,
    FaultView,
> {
    match ask::reply_to(replies, query) {
        Some(ReplyView::Handle(h)) => Ok(SelectorView::Callable(h)),
        Some(ReplyView::Refused(msg)) => Err(FaultView::Message(msg)),
        _ => Err(FaultView::Need(query)),
    }
}

/// Does a text hold whitespace?
pub open spec fn has_space(s: Seq<char>) -> bool {
    exists|i: int| 0 <= i < s.len() && text::whitespace(#[trigger] s[i])
}

/// What a selector spec stands for.
pub open spec fn resolved(spec_text: Seq<char>, replies: ReplySeq) -> Result<
    SelectorView,
    FaultView,
> {
    let t = text::trimmed(spec_text);
    if t.len() == 0 {
        Err(FaultView::Message("empty selector"@))
    } else if text::contains(t, "=>"@) {
        function_answer(replies, QueryView::CompileFn(t))
    } else if t[0] == '@' {
        if t.len() == 1 {
            Err(FaultView::Message("expected a function name after `@`"@))
        } else {
            function_answer(replies, QueryView::LookupFn(t.subrange(1, t.len() as int)))
        }
    } else if has_space(t) {
        Err(
            FaultView::Message(
                "`"@ + t + "` is not a field path; inline functions must contain `=>`"@,
            ),
        )
    } else {
        Ok(SelectorView::Field(text::pieces(t, '.', 0)))
    }
}

/// The value at the end of a path through nested records; null where there is
/// none.
pub open spec fn walked(v: ValueView, path: Seq<Seq<char>>) -> ValueView
    decreases path.len(),
{
    if path.len() == 0 {
        v
    } else {
        match v {
            ValueView::Record(fields) => match value::lookup(fields, path[0]) {
                Some(inner) => walked(inner, path.drop_first()),
                None => ValueView::Null,
            },
            _ => ValueView::Null,
        }
    }
}

/// What a selector makes of an item.
pub open spec fn applied(sel: SelectorView, v: ValueView, ticket: Ticket, replies: ReplySeq) -> Result<
    ValueView,
    FaultView,
> {
    match sel {
        SelectorView::Identity => Ok(v),
        SelectorView::Field(path) => Ok(walked(v, path)),
        SelectorView::Closure(c) => match expr::closure_result(c, v, replies) {
            Ok(out) => Ok(out),
            Err(StopView::Fail(e)) => Err(FaultView::Message(e.msg)),
            Err(StopView::Need(q)) => Err(FaultView::Need(q)),
        },
        SelectorView::Callable(h) => match ask::reply_to(
            replies,
            QueryView::CallFn(h, ticket, v),
        ) {
            Some(ReplyView::Value(out)) => Ok(out),
            Some(ReplyView::Refused(msg)) => Err(FaultView::Message(msg)),
            _ => Err(FaultView::Need(QueryView::CallFn(h, ticket, v))),
        },
    }
}

/// The top-level field that a selector reads.
pub open spec fn head_of(sel: SelectorView) -> Option<Seq<char>> {
    match sel {
        SelectorView::Field(path) => if path.len() > 0 {
            Some(path[0])
        } else {
            None
        },
        _ => None,
    }
}

/// A missing field is null, on records and on values that have no fields at
/// all: a field selector never fails.
pub proof fn missing_fields_never_fail(
    path: Seq<Seq<char>>,
    v: ValueView,
    ticket: Ticket,
    replies: ReplySeq,
)
    requires
        path.len() > 0,
    ensures
        applied(SelectorView::Field(path), v, ticket, replies) is Ok,
        !(v is Record) ==> applied(SelectorView::Field(path), v, ticket, replies) == Ok::<
            ValueView,
            FaultView,
        >(ValueView::Null),
        v is Record && value::lookup(v->Record_0, path[0]) is None ==> applied(
            SelectorView::Field(path),
            v,
            ticket,
            replies,
        ) == Ok::<ValueView, FaultView>(ValueView::Null),
{
}

/// Resolution looks at the spec without the whitespace around it.
pub proof fn space_around_a_spec_is_ignored(a: Seq<char>, b: Seq<char>, replies: ReplySeq)
    requires
        text::trimmed(a) == text::trimmed(b),
    ensures
        resolved(a, replies) == resolved(b, replies),
{
}

fn ask_function(query: Query, replies: &Replies) -> (r: Result<Selector, Fault>)
    ensures
        match r {
            Ok(s) => function_answer(replies@, query@) == Ok::<SelectorView, FaultView>(s@),
            Err(f) => function_answer(replies@, query@) == Err::<SelectorView, FaultView>(f@),
        },
{
    match replies.find(&query) {
        Some(Reply::Handle(h)) => Ok(Selector::Callable(*h)),
        Some(Reply::Refused(msg)) => Err(Fault::Message(msg.clone())),
        _ => Err(Fault::Need(query)),
    }
}

fn holds_space(chars: &Vec<char>) -> (r: bool)
    ensures
        r == has_space(chars@),
{
    let mut i: usize = 0;
    while i < chars.len()
        invariant
            i <= chars@.len(),
            forall|k: int| 0 <= k < i ==> !text::whitespace(#[trigger] chars@[k]),
        decreases chars@.len() - i,
    {
        if text::is_whitespace(chars[i]) {
            return true;
        }
        i = i + 1;
    }
    false
}

impl Selector {
    /// Resolve a `--on`/projection spec against the host.
    pub fn parse(spec_text: &str, replies: &Replies) -> (r: Result<Selector, Fault>)
        ensures
            match r {
                Ok(s) => resolved(spec_text@, replies@) == Ok::<SelectorView, FaultView>(s@),
                Err(f) => resolved(spec_text@, replies@) == Err::<SelectorView, FaultView>(f@),
            },
    {
        let trimmed = text::trim(spec_text);
        let chars = text::to_chars(trimmed.as_str());
        if chars.len() == 0 {
            return Err(Fault::Message("empty selector".to_owned()));
        }
        if text::has_text(trimmed.as_str(), "=>") {
            return ask_function(Query::CompileFn(trimmed), replies);
        }
        if chars[0] == '@' {
            if chars.len() == 1 {
                return Err(Fault::Message("expected a function name after `@`".to_owned()));
            }
            let name = text::slice_text(&chars, 1, chars.len());
            return ask_function(Query::LookupFn(name), replies);
        }
        if holds_space(&chars) {
            return Err(
                Fault::Message(
                    text::around(
                        "`",
                        trimmed.as_str(),
                        "` is not a field path; inline functions must contain `=>`",
                    ),
                ),
            );
        }
        Ok(Selector::Field(text::split(trimmed.as_str(), '.')))
    }

    /// Project one item.
    pub fn apply(&self, value: &Value, ticket: Ticket, replies: &Replies) -> (r: Result<Value, Fault>)
        ensures
            match r {
                Ok(v) => applied(self@, value@, ticket, replies@) == Ok::<ValueView, FaultView>(v@),
                Err(f) => applied(self@, value@, ticket, replies@) == Err::<ValueView, FaultView>(
                    f@,
                ),
            },
    {
        match self {
            Selector::Identity => Ok(value.clone()),
            Selector::Field(path) => Ok(walk(value, path)),
            Selector::Closure(c) => match c.call(value, replies) {
                Ok(v) => Ok(v),
                Err(Stop::Fail(e)) => Err(Fault::Message(e.msg)),
                Err(Stop::Need(q)) => Err(Fault::Need(q)),
            },
            Selector::Callable(h) => {
                let query = Query::CallFn(*h, ticket, value.clone());
                match replies.find(&query) {
                    Some(Reply::Value(v)) => Ok(v.clone()),
                    Some(Reply::Refused(msg)) => Err(Fault::Message(msg.clone())),
                    _ => Err(Fault::Need(query)),
                }
            },
        }
    }

    /// Field names this selector reads at the top level, for "no column
    /// `x`" diagnostics. `None` when the selector isn't a field path.
    pub fn head_field(&self) -> (r: Option<&str>)
        ensures
            match r {
                Some(s) => head_of(self@) == Some(s@),
                None => head_of(self@) is None,
            },
    {
        match self {
            Selector::Field(path) => if path.len() > 0 {
                proof {
                    assert(text::texts(path@)[0] == path@[0]@);
                }
                Some(path[0].as_str())
            } else {
                None
            },
            _ => None,
        }
    }
}

fn walk(value: &Value, path: &Vec<String>) -> (r: Value)
    ensures
        r@ == walked(value@, text::texts(path@)),
{
    let ghost all = text::texts(path@);
    let mut current = value;
    let mut i: usize = 0;
    proof {
        assert(all.skip(0) =~= all);
    }
    while i < path.len()
        invariant
            i <= path@.len(),
            all == text::texts(path@),
            walked(value@, all) == walked(current@, all.skip(i as int)),
        decreases path@.len() - i,
    {
        proof {
            assert(all.skip(i as int).drop_first() =~= all.skip(i + 1));
            assert(all.skip(i as int)[0] == path@[i as int]@);
        }
        match current {
            Value::Record(fields) => match fields.get(path[i].as_str()) {
                Some(v) => {
                    current = v;
                },
                None => {
                    return Value::Null;
                },
            },
            _ => {
                return Value::Null;
            },
        }
        i = i + 1;
    }
    current.clone()
}

impl Clone for Selector {
    fn clone(&self) -> (r: Self)
        ensures
            r@ == self@,
    {
        match self {
            Selector::Identity => Selector::Identity,
            Selector::Field(path) => Selector::Field(text::clone_texts(path)),
            Selector::Closure(c) => Selector::Closure(c.clone()),
            Selector::Callable(h) => Selector::Callable(*h),
        }
    }
}

} // verus!
