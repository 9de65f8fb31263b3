//! The commands that look at their whole input at once.

use crate::ask;
use crate::ask::{Query, QueryView, Replies, Reply, ReplySeq, ReplyView, Stop, StopView, Ticket};
use crate::builtins::select;
use crate::builtins::sort;
use crate::builtins::Builtin;
use crate::error::{ErrorKind, ErrorView, ShellError};
use crate::registry;
use crate::registry::{
    DataView, MuxAction, MuxActionView, PipelineData, VarOrigin, VisibleVar, VisibleView,
};
use crate::render;
use crate::signature;
use crate::signature::{BoundCall, BoundCallView};
use crate::text;
use crate::value;
use crate::value::{Fields, Value, ValueView};
use vstd::prelude::*;

verus! {

broadcast use crate::value::value_view_cases;

/// What a command gives, or why it gives nothing.
pub open spec fn data_result(r: Result<PipelineData, Stop>) -> Result<DataView, StopView> {
    match r {
        Ok(d) => Ok(d@),
        Err(e) => Err(e@),
    }
}

pub open spec fn failed(e: ErrorView) -> Result<DataView, StopView> {
    Err(StopView::Fail(e))
}

/// `echo`: the given values.
pub open spec fn echoed(call: BoundCallView) -> DataView {
    if call.positionals.len() == 0 {
        DataView::Empty
    } else if call.positionals.len() == 1 {
        DataView::Value(call.positionals[0])
    } else {
        DataView::Value(ValueView::List(call.positionals))
    }
}

pub fn echo(call: &BoundCall) -> (r: PipelineData)
    ensures
        r@ == echoed(call@),
{
    if call.positionals.len() == 0 {
        PipelineData::Empty
    } else if call.positionals.len() == 1 {
        proof {
            assert(call@.positionals[0] == call.positionals@[0]@);
        }
        PipelineData::Value(call.positionals[0].clone())
    } else {
        PipelineData::Value(Value::List(value::clone_values(&call.positionals)))
    }
}

/// A column of a table; null where a row lacks it.
pub open spec fn column_of(rows: Seq<ValueView>, column: Seq<char>) -> Result<
    Seq<ValueView>,
    ErrorView,
>
    decreases rows.len(),
{
    if rows.len() == 0 {
        Ok(Seq::empty())
    } else {
        match column_of(rows.drop_last(), column) {
            Err(e) => Err(e),
            Ok(out) => match rows.last() {
                ValueView::Record(fields) => Ok(
                    out.push(
                        match value::lookup(fields, column) {
                            Some(v) => v,
                            None => ValueView::Null,
                        },
                    ),
                ),
                other => Err(select::type_failure("get"@, "a record or table"@, other)),
            },
        }
    }
}

proof fn column_failure_stays(rows: Seq<ValueView>, column: Seq<char>, n: int)
    requires
        0 <= n <= rows.len(),
        column_of(rows.take(n), column) is Err,
    ensures
        column_of(rows, column) == column_of(rows.take(n), column),
    decreases rows.len() - n,
{
    if n < rows.len() {
        assert(rows.take(n + 1).drop_last() =~= rows.take(n));
        column_failure_stays(rows, column, n + 1);
    } else {
        assert(rows.take(n) =~= rows);
    }
}

/// `get`: a field of a record, or a column of a table.
pub open spec fn gotten(call: BoundCallView, input: ValueView) -> Result<DataView, StopView> {
    let column = select::first_text(call);
    match input {
        ValueView::Record(fields) => match value::lookup(fields, column) {
            Some(v) => Ok(DataView::Value(v)),
            None => failed(
                ErrorView::at(
                    ErrorKind::Runtime,
                    "no column `"@ + column + "`"@,
                    call.head_span,
                ).helped(
                    "available columns: "@ + text::joined(value::field_names(fields), ", "@),
                ),
            ),
        },
        ValueView::List(rows) => match column_of(rows, column) {
            Ok(out) => Ok(DataView::Value(ValueView::List(out))),
            Err(e) => failed(e),
        },
        other => failed(select::type_failure("get"@, "a record or table"@, other)),
    }
}

fn names_of(fields: &Fields) -> (r: Vec<String>)
    ensures
        text::texts(r@) == value::field_names(fields@),
{
    let mut out: Vec<String> = Vec::new();
    let n: usize = fields.len();
    let mut i: usize = 0;
    while i < n
        invariant
            i <= n,
            n == fields@.len(),
            out@.len() == i,
            forall|k: int| 0 <= k < i ==> (#[trigger] out@[k])@ == fields@[k].0,
        decreases n - i,
    {
        out.push(fields.name(i).clone());
        i = i + 1;
    }
    proof {
        assert(text::texts(out@) =~= value::field_names(fields@));
    }
    out
}

fn take_column(rows: &Vec<Value>, column: &str) -> (r: Result<Vec<Value>, ShellError>)
    ensures
        match r {
            Ok(out) => column_of(value::values_view(rows@), column@) == Ok::<
                Seq<ValueView>,
                ErrorView,
            >(value::values_view(out@)),
            Err(e) => column_of(value::values_view(rows@), column@) == Err::<
                Seq<ValueView>,
                ErrorView,
            >(e@),
        },
{
    let ghost all = value::values_view(rows@);
    let mut out: Vec<Value> = Vec::new();
    let mut i: usize = 0;
    proof {
        assert(value::values_view(out@) =~= Seq::<ValueView>::empty());
    }
    while i < rows.len()
        invariant
            i <= rows@.len(),
            all == value::values_view(rows@),
            column_of(all.take(i as int), column@) == Ok::<Seq<ValueView>, ErrorView>(
                value::values_view(out@),
            ),
        decreases rows@.len() - i,
    {
        proof {
            assert(all.take(i + 1).drop_last() =~= all.take(i as int));
            assert(all.take(i + 1).last() == rows@[i as int]@);
        }
        let ghost before = value::values_view(out@);
        match &rows[i] {
            Value::Record(fields) => {
                let v = match fields.get(column) {
                    Some(v) => v.clone(),
                    None => Value::Null,
                };
                let ghost vv = v@;
                out.push(v);
                proof {
                    assert(value::values_view(out@) =~= before.push(vv));
                }
            },
            other => {
                proof {
                    column_failure_stays(all, column@, i + 1);
                }
                return Err(select::type_err("get", "a record or table", other));
            },
        }
        i = i + 1;
    }
    proof {
        assert(all.take(all.len() as int) =~= all);
    }
    Ok(out)
}

pub fn get(call: &BoundCall, input: Value) -> (r: Result<PipelineData, Stop>)
    ensures
        data_result(r) == gotten(call@, input@),
{
    let column = select::take_first_text(call);
    match input {
        Value::Record(fields) => match fields.get(column.as_str()) {
            Some(v) => Ok(PipelineData::Value(v.clone())),
            None => {
                let names = names_of(&fields);
                Err(Stop::Fail(select::no_column(column.as_str(), &names, call.head_span)))
            },
        },
        Value::List(rows) => match take_column(&rows, column.as_str()) {
            Ok(out) => Ok(PipelineData::Value(Value::List(out))),
            Err(e) => Err(Stop::Fail(e)),
        },
        other => Err(Stop::Fail(select::type_err("get", "a record or table", &other))),
    }
}

/// `tail`: the last row, or the last n rows.
pub open spec fn tailed(call: BoundCallView, input: ValueView) -> Result<DataView, StopView> {
    match select::count_asked(call) {
        Err(e) => failed(e),
        Ok(n) => match input {
            ValueView::List(items) => Ok(
                DataView::Value(
                    match n {
                        None => if items.len() > 0 {
                            items.last()
                        } else {
                            ValueView::Null
                        },
                        Some(n) => ValueView::List(
                            if items.len() > n {
                                items.skip(items.len() - n)
                            } else {
                                items
                            },
                        ),
                    },
                ),
            ),
            other => failed(select::type_failure("tail"@, "a list"@, other)),
        },
    }
}

pub fn tail(call: &BoundCall, input: Value) -> (r: Result<PipelineData, Stop>)
    ensures
        data_result(r) == tailed(call@, input@),
{
    let n = match select::take_n(call) {
        Ok(n) => n,
        Err(e) => {
            return Err(Stop::Fail(e));
        },
    };
    match input {
        Value::List(items) => {
            let ghost all = value::values_view(items@);
            match n {
                None => {
                    if items.len() > 0 {
                        proof {
                            assert(all.last() == items@[items@.len() - 1]@);
                        }
                        Ok(PipelineData::Value(items[items.len() - 1].clone()))
                    } else {
                        Ok(PipelineData::Value(Value::Null))
                    }
                },
                Some(n) => {
                    let len: usize = items.len();
                    let skip: usize = if len > n {
                        len - n
                    } else {
                        0
                    };
                    let mut out: Vec<Value> = Vec::new();
                    let mut i: usize = skip;
                    proof {
                        assert(value::values_view(out@) =~= all.subrange(skip as int, i as int));
                    }
                    while i < len
                        invariant
                            skip <= i <= len,
                            len == items@.len(),
                            all == value::values_view(items@),
                            value::values_view(out@) == all.subrange(skip as int, i as int),
                        decreases len - i,
                    {
                        let ghost before = value::values_view(out@);
                        out.push(items[i].clone());
                        proof {
                            assert(value::values_view(out@) =~= before.push(all[i as int]));
                            assert(before.push(all[i as int]) =~= all.subrange(
                                skip as int,
                                i + 1,
                            ));
                        }
                        i = i + 1;
                    }
                    proof {
                        assert(all.subrange(skip as int, len as int) =~= if len > n {
                            all.skip(len - n)
                        } else {
                            all
                        });
                    }
                    Ok(PipelineData::Value(Value::List(out)))
                },
            }
        },
        other => Err(Stop::Fail(select::type_err("tail", "a list", &other))),
    }
}

/// `length`: the number of items, or of characters.
pub open spec fn measured(input: ValueView) -> Result<DataView, StopView> {
    match input {
        ValueView::List(items) => Ok(DataView::Value(ValueView::Int(items.len() as i64))),
        ValueView::Str(s) => Ok(DataView::Value(ValueView::Int(s.len() as i64))),
        other => failed(select::type_failure("length"@, "a list or string"@, other)),
    }
}

pub fn length(input: Value) -> (r: Result<PipelineData, Stop>)
    ensures
        data_result(r) == measured(input@),
{
    match input {
        Value::List(items) => Ok(PipelineData::Value(Value::Int(items.len() as i64))),
        Value::Str(s) => {
            let chars = text::to_chars(s.as_str());
            Ok(PipelineData::Value(Value::Int(chars.len() as i64)))
        },
        other => Err(Stop::Fail(select::type_err("length", "a list or string", &other))),
    }
}

/// A text in upper or lower case.
pub open spec fn recased(s: Seq<char>, up: bool) -> Seq<char> {
    if up {
        text::uppercased(s)
    } else {
        text::lowercased(s)
    }
}

fn recase(s: &str, up: bool) -> (r: String)
    ensures
        r@ == recased(s@, up),
{
    if up {
        text::to_upper(s)
    } else {
        text::to_lower(s)
    }
}

pub open spec fn recased_items(cmd: Seq<char>, items: Seq<ValueView>, up: bool) -> Result<
    Seq<ValueView>,
    ErrorView,
>
    decreases items.len(),
{
    if items.len() == 0 {
        Ok(Seq::empty())
    } else {
        match recased_items(cmd, items.drop_last(), up) {
            Err(e) => Err(e),
            Ok(out) => match items.last() {
                ValueView::Str(s) => Ok(out.push(ValueView::Str(recased(s, up)))),
                other => Err(select::type_failure(cmd, "strings"@, other)),
            },
        }
    }
}

proof fn recase_failure_stays(cmd: Seq<char>, items: Seq<ValueView>, up: bool, n: int)
    requires
        0 <= n <= items.len(),
        recased_items(cmd, items.take(n), up) is Err,
    ensures
        recased_items(cmd, items, up) == recased_items(cmd, items.take(n), up),
    decreases items.len() - n,
{
    if n < items.len() {
        assert(items.take(n + 1).drop_last() =~= items.take(n));
        recase_failure_stays(cmd, items, up, n + 1);
    } else {
        assert(items.take(n) =~= items);
    }
}

/// Where `str upcase` and `str downcase` take their strings from: the
/// arguments if there are any, else the input.
pub open spec fn string_source(call: BoundCallView, input: ValueView) -> ValueView {
    if call.positionals.len() == 0 {
        input
    } else if call.positionals.len() == 1 {
        call.positionals[0]
    } else {
        ValueView::List(call.positionals)
    }
}

pub open spec fn mapped_strings(
    cmd: Seq<char>,
    call: BoundCallView,
    input: ValueView,
    up: bool,
) -> Result<DataView, StopView> {
    match string_source(call, input) {
        ValueView::Str(s) => Ok(DataView::Value(ValueView::Str(recased(s, up)))),
        ValueView::List(items) => match recased_items(cmd, items, up) {
            Ok(out) => Ok(DataView::Value(ValueView::List(out))),
            Err(e) => failed(e),
        },
        other => failed(select::type_failure(cmd, "a string or list of strings"@, other)),
    }
}

fn recase_all(cmd: &str, items: &Vec<Value>, up: bool) -> (r: Result<Vec<Value>, ShellError>)
    ensures
        match r {
            Ok(out) => recased_items(cmd@, value::values_view(items@), up) == Ok::<
                Seq<ValueView>,
                ErrorView,
            >(value::values_view(out@)),
            Err(e) => recased_items(cmd@, value::values_view(items@), up) == Err::<
                Seq<ValueView>,
                ErrorView,
            >(e@),
        },
{
    let ghost all = value::values_view(items@);
    let mut out: Vec<Value> = Vec::new();
    let mut i: usize = 0;
    proof {
        assert(value::values_view(out@) =~= Seq::<ValueView>::empty());
    }
    while i < items.len()
        invariant
            i <= items@.len(),
            all == value::values_view(items@),
            recased_items(cmd@, all.take(i as int), up) == Ok::<Seq<ValueView>, ErrorView>(
                value::values_view(out@),
            ),
        decreases items@.len() - i,
    {
        proof {
            assert(all.take(i + 1).drop_last() =~= all.take(i as int));
            assert(all.take(i + 1).last() == items@[i as int]@);
        }
        let ghost before = value::values_view(out@);
        match &items[i] {
            Value::Str(s) => {
                let v = Value::Str(recase(s.as_str(), up));
                let ghost vv = v@;
                out.push(v);
                proof {
                    assert(value::values_view(out@) =~= before.push(vv));
                }
            },
            other => {
                proof {
                    recase_failure_stays(cmd@, all, up, i + 1);
                }
                return Err(select::type_err(cmd, "strings", other));
            },
        }
        i = i + 1;
    }
    proof {
        assert(all.take(all.len() as int) =~= all);
    }
    Ok(out)
}

pub fn map_strings(cmd: &str, call: &BoundCall, input: Value, up: bool) -> (r: Result<
    PipelineData,
    Stop,
>)
    ensures
        data_result(r) == mapped_strings(cmd@, call@, input@, up),
{
    let source = if call.positionals.len() == 0 {
        input
    } else if call.positionals.len() == 1 {
        proof {
            assert(call@.positionals[0] == call.positionals@[0]@);
        }
        call.positionals[0].clone()
    } else {
        Value::List(value::clone_values(&call.positionals))
    };
    match source {
        Value::Str(s) => Ok(PipelineData::Value(Value::Str(recase(s.as_str(), up)))),
        Value::List(items) => match recase_all(cmd, &items, up) {
            Ok(out) => Ok(PipelineData::Value(Value::List(out))),
            Err(e) => Err(Stop::Fail(e)),
        },
        other => Err(
            Stop::Fail(select::type_err(cmd, "a string or list of strings", &other)),
        ),
    }
}

pub open spec fn pretty_asked(call: BoundCallView) -> bool {
    value::lookup(call.flags, "pretty"@) == Some(ValueView::Bool(true))
}

/// `to json`: the input as JSON text. Numbers that JSON has no form for are
/// refused before the host is asked.
pub open spec fn written_json(call: BoundCallView, input: ValueView, replies: ReplySeq) -> Result<
    DataView,
    StopView,
> {
    let query = QueryView::WriteJson(input, pretty_asked(call));
    if value::non_finite_inside(input) {
        failed(
            ErrorView::at(
                ErrorKind::Runtime,
                "cannot serialize NaN or Infinity to JSON"@,
                call.head_span,
            ).helped("JSON has no representation for non-finite numbers"@),
        )
    } else {
        match ask::reply_to(replies, query) {
            Some(ReplyView::Text(s)) => Ok(DataView::Value(ValueView::Str(s))),
            Some(ReplyView::Refused(msg)) => failed(
                ErrorView::bare(ErrorKind::Runtime, "cannot serialize to JSON: "@ + msg),
            ),
            _ => Err(StopView::Need(query)),
        }
    }
}

pub fn to_json(call: &BoundCall, input: Value, replies: &Replies) -> (r: Result<
    PipelineData,
    Stop,
>)
    ensures
        data_result(r) == written_json(call@, input@, replies@),
{
    if input.has_non_finite() {
        return Err(
            Stop::Fail(
                ShellError::runtime("cannot serialize NaN or Infinity to JSON").with_span(
                    call.head_span,
                ).with_help("JSON has no representation for non-finite numbers"),
            ),
        );
    }
    let pretty = call.has_flag("pretty");
    let query = Query::WriteJson(input, pretty);
    match replies.find(&query) {
        Some(Reply::Text(s)) => Ok(PipelineData::Value(Value::Str(s.clone()))),
        Some(Reply::Refused(m)) => {
            let mut msg = "cannot serialize to JSON: ".to_owned();
            msg.append(m.as_str());
            Err(Stop::Fail(ShellError::runtime(msg.as_str())))
        },
        _ => Err(Stop::Need(query)),
    }
}

/// `from json`: the value that a JSON text denotes.
pub open spec fn read_json(call: BoundCallView, input: ValueView, replies: ReplySeq) -> Result<
    DataView,
    StopView,
> {
    match input {
        ValueView::Str(s) => match ask::reply_to(replies, QueryView::ReadJson(s)) {
            Some(ReplyView::Value(v)) => Ok(DataView::Value(v)),
            Some(ReplyView::Refused(msg)) => failed(
                ErrorView::at(ErrorKind::Runtime, "invalid JSON: "@ + msg, call.head_span),
            ),
            _ => Err(StopView::Need(QueryView::ReadJson(s))),
        },
        other => failed(select::type_failure("from json"@, "a JSON string"@, other)),
    }
}

pub fn from_json(call: &BoundCall, input: Value, replies: &Replies) -> (r: Result<
    PipelineData,
    Stop,
>)
    ensures
        data_result(r) == read_json(call@, input@, replies@),
{
    match input {
        Value::Str(s) => {
            let query = Query::ReadJson(s);
            match replies.find(&query) {
                Some(Reply::Value(v)) => Ok(PipelineData::Value(v.clone())),
                Some(Reply::Refused(m)) => {
                    let mut msg = "invalid JSON: ".to_owned();
                    msg.append(m.as_str());
                    Err(
                        Stop::Fail(
                            ShellError::runtime(msg.as_str()).with_span(call.head_span),
                        ),
                    )
                },
                _ => Err(Stop::Need(query)),
            }
        },
        other => Err(Stop::Fail(select::type_err("from json", "a JSON string", &other))),
    }
}

/// A text without the line feeds at its end.
pub open spec fn without_final_lines(s: Seq<char>) -> Seq<char>
    decreases s.len(),
{
    if s.len() > 0 && s.last() == '\n' {
        without_final_lines(s.drop_last())
    } else {
        s
    }
}

fn drop_final_lines(s: &str) -> (r: String)
    ensures
        r@ == without_final_lines(s@),
{
    let chars = text::to_chars(s);
    let mut n: usize = chars.len();
    proof {
        assert(s@.take(s@.len() as int) =~= s@);
    }
    while n > 0 && chars[n - 1] == '\n'
        invariant
            n <= chars@.len(),
            chars@ == s@,
            without_final_lines(s@) == without_final_lines(s@.take(n as int)),
        decreases n,
    {
        proof {
            assert(s@.take(n as int).drop_last() =~= s@.take(n - 1));
        }
        n = n - 1;
    }
    proof {
        assert(s@.subrange(0, n as int) =~= s@.take(n as int));
    }
    text::slice_text(&chars, 0, n)
}

/// `table`: the input as the text it would print.
pub open spec fn tabled(input: ValueView, width: u16, replies: ReplySeq) -> Result<
    DataView,
    StopView,
> {
    match render::rendered(input, width, replies) {
        Ok(s) => Ok(DataView::Rendered(without_final_lines(s))),
        Err(e) => Err(e),
    }
}

pub fn table(input: Value, width: u16, replies: &Replies) -> (r: Result<PipelineData, Stop>)
    ensures
        data_result(r) == tabled(input@, width, replies@),
{
    match render::render(&input, width, replies) {
        Ok(s) => Ok(PipelineData::Rendered(drop_final_lines(s.as_str()))),
        Err(e) => Err(e),
    }
}

/// A line of the overview as a row.
pub open spec fn overview_row(line: (Seq<char>, Seq<char>)) -> ValueView {
    ValueView::Record(
        seq![
            ("command"@, ValueView::Str(line.0)),
            ("summary"@, ValueView::Str(line.1)),
        ],
    )
}

pub open spec fn overview_rows(lines: Seq<(Seq<char>, Seq<char>)>) -> Seq<ValueView> {
    lines.map_values(|line: (Seq<char>, Seq<char>)| overview_row(line))
}

/// The texts among some values.
pub open spec fn texts_among(values: Seq<ValueView>) -> Seq<Seq<char>>
    decreases values.len(),
{
    if values.len() == 0 {
        Seq::empty()
    } else {
        let out = texts_among(values.drop_last());
        match values.last() {
            ValueView::Str(s) => out.push(s),
            _ => out,
        }
    }
}

/// `help`: the overview as a table, or the page of one command.
pub open spec fn helped(call: BoundCallView, replies: ReplySeq) -> Result<DataView, StopView> {
    if call.positionals.len() == 0 {
        match ask::reply_to(replies, QueryView::HelpOverview) {
            Some(ReplyView::Listing(lines)) => Ok(
                DataView::Value(ValueView::List(overview_rows(lines))),
            ),
            _ => Err(StopView::Need(QueryView::HelpOverview)),
        }
    } else {
        let name = text::joined(texts_among(call.positionals), " "@);
        match ask::reply_to(replies, QueryView::HelpFor(name)) {
            Some(ReplyView::Text(page)) => Ok(DataView::Rendered(page)),
            Some(ReplyView::Refused(_)) => failed(
                ErrorView::at(
                    ErrorKind::UnknownCommand,
                    "no help for `"@ + name + "`"@,
                    call.head_span,
                ).helped("run `help` to list commands"@),
            ),
            _ => Err(StopView::Need(QueryView::HelpFor(name))),
        }
    }
}

fn text_values(values: &Vec<Value>) -> (r: Vec<String>)
    ensures
        text::texts(r@) == texts_among(value::values_view(values@)),
{
    let ghost all = value::values_view(values@);
    let mut out: Vec<String> = Vec::new();
    let mut i: usize = 0;
    proof {
        assert(text::texts(out@) =~= texts_among(all.take(0)));
    }
    while i < values.len()
        invariant
            i <= values@.len(),
            all == value::values_view(values@),
            text::texts(out@) == texts_among(all.take(i as int)),
        decreases values@.len() - i,
    {
        proof {
            assert(all.take(i + 1).drop_last() =~= all.take(i as int));
            assert(all.take(i + 1).last() == values@[i as int]@);
        }
        let ghost before = text::texts(out@);
        match &values[i] {
            Value::Str(s) => {
                out.push(s.clone());
                proof {
                    assert(text::texts(out@) =~= before.push(s@));
                }
            },
            _ => {},
        }
        i = i + 1;
    }
    proof {
        assert(all.take(all.len() as int) =~= all);
    }
    out
}

fn row_of(name: &String, summary: &String) -> (r: Value)
    ensures
        r@ == overview_row((name@, summary@)),
{
    let mut fields = Fields::new();
    let command = Value::Str(name.clone());
    let about = Value::Str(summary.clone());
    let ghost none = fields@;
    fields.insert("command".to_owned(), command);
    let ghost one = fields@;
    fields.insert("summary".to_owned(), about);
    proof {
        reveal_strlit("command");
        reveal_strlit("summary");
        assert("command"@ != "summary"@) by {
            assert("command"@[0] == 'c');
            assert("summary"@[0] == 's');
        }
        assert(none.len() == 0);
        assert(value::position(none, "command"@) is None);
        assert(one =~= seq![("command"@, ValueView::Str(name@))]);
        assert(one.drop_last() =~= none);
        assert(value::position(one.drop_last(), "summary"@) is None);
        assert(value::position(one, "summary"@) is None);
        assert(fields@ =~= seq![
            ("command"@, ValueView::Str(name@)),
            ("summary"@, ValueView::Str(summary@)),
        ]);
    }
    Value::Record(fields)
}

fn rows_of(lines: &Vec<(String, String)>) -> (r: Vec<Value>)
    ensures
        value::values_view(r@) == overview_rows(signature::subs_view(lines@)),
{
    let mut out: Vec<Value> = Vec::new();
    let mut i: usize = 0;
    while i < lines.len()
        invariant
            i <= lines@.len(),
            out@.len() == i,
            forall|k: int|
                0 <= k < i ==> (#[trigger] out@[k])@ == overview_row(
                    (lines@[k].0@, lines@[k].1@),
                ),
        decreases lines@.len() - i,
    {
        out.push(row_of(&lines[i].0, &lines[i].1));
        i = i + 1;
    }
    proof {
        assert(value::values_view(out@) =~= overview_rows(signature::subs_view(lines@)));
    }
    out
}

pub fn help(call: &BoundCall, replies: &Replies) -> (r: Result<PipelineData, Stop>)
    ensures
        data_result(r) == helped(call@, replies@),
{
    if call.positionals.len() == 0 {
        let query = Query::HelpOverview;
        return match replies.find(&query) {
            Some(Reply::Listing(lines)) => Ok(PipelineData::Value(Value::List(rows_of(lines)))),
            _ => Err(Stop::Need(query)),
        };
    }
    let words = text_values(&call.positionals);
    let name = text::join(&words, words.len(), " ");
    proof {
        assert(text::texts(words@).take(words@.len() as int) =~= text::texts(words@));
    }
    let msg = text::around("no help for `", name.as_str(), "`");
    let query = Query::HelpFor(name);
    match replies.find(&query) {
        Some(Reply::Text(page)) => Ok(PipelineData::Rendered(page.clone())),
        Some(Reply::Refused(_)) => Err(
            Stop::Fail(
                ShellError::new(ErrorKind::UnknownCommand, msg.as_str()).with_span(
                    call.head_span,
                ).with_help("run `help` to list commands"),
            ),
        ),
        _ => Err(Stop::Need(query)),
    }
}

pub open spec fn text_rows(lines: Seq<Seq<char>>) -> Seq<ValueView> {
    lines.map_values(|s: Seq<char>| ValueView::Str(s))
}

/// `history`: the lines of the shell's history.
pub open spec fn recalled(replies: ReplySeq) -> Result<DataView, StopView> {
    match ask::reply_to(replies, QueryView::History) {
        Some(ReplyView::Texts(lines)) => Ok(DataView::Value(ValueView::List(text_rows(lines)))),
        _ => Err(StopView::Need(QueryView::History)),
    }
}

pub fn history(replies: &Replies) -> (r: Result<PipelineData, Stop>)
    ensures
        data_result(r) == recalled(replies@),
{
    let query = Query::History;
    match replies.find(&query) {
        Some(Reply::Texts(lines)) => {
            let mut out: Vec<Value> = Vec::new();
            let mut i: usize = 0;
            while i < lines.len()
                invariant
                    i <= lines@.len(),
                    out@.len() == i,
                    forall|k: int|
                        0 <= k < i ==> (#[trigger] out@[k])@ == ValueView::Str(lines@[k]@),
                decreases lines@.len() - i,
            {
                out.push(Value::Str(lines[i].clone()));
                i = i + 1;
            }
            proof {
                assert(value::values_view(out@) =~= text_rows(text::texts(lines@)));
            }
            Ok(PipelineData::Value(Value::List(out)))
        },
        _ => Err(Stop::Need(query)),
    }
}

/// What a variable's origin is called.
pub open spec fn origin_text(origin: VarOrigin) -> Seq<char> {
    match origin {
        VarOrigin::Host => "host"@,
        VarOrigin::Session => "session"@,
    }
}

/// A row of the variable list.
pub open spec fn var_row(v: VisibleView) -> ValueView {
    ValueView::Record(
        value::inserted(
            value::inserted(
                value::inserted(Seq::empty(), "name"@, ValueView::Str(v.name)),
                "scope"@,
                ValueView::Str(origin_text(v.origin)),
            ),
            "value"@,
            v.value,
        ),
    )
}

/// A sorted list with one more variable in its place, behind those of its name.
pub open spec fn placed_var(sorted: Seq<VisibleView>, x: VisibleView) -> Seq<VisibleView>
    decreases sorted.len(),
{
    if sorted.len() > 0 && text::text_after(sorted.last().name, x.name) {
        placed_var(sorted.drop_last(), x).push(sorted.last())
    } else {
        sorted.push(x)
    }
}

/// Variables sorted by name.
pub open spec fn vars_by_name(vars: Seq<VisibleView>) -> Seq<VisibleView>
    decreases vars.len(),
{
    if vars.len() == 0 {
        Seq::empty()
    } else {
        placed_var(vars_by_name(vars.drop_last()), vars.last())
    }
}

pub open spec fn names_sorted(vars: Seq<VisibleView>) -> bool {
    forall|i: int, j: int|
        0 <= i < j < vars.len() ==> !text::text_after(
            (#[trigger] vars[i]).name,
            (#[trigger] vars[j]).name,
        )
}

proof fn placing_a_var(sorted: Seq<VisibleView>, x: VisibleView)
    requires
        names_sorted(sorted),
    ensures
        names_sorted(placed_var(sorted, x)),
        placed_var(sorted, x).to_multiset() == sorted.to_multiset().insert(x),
        placed_var(sorted, x).len() == sorted.len() + 1,
        forall|i: int|
            0 <= i <= sorted.len() ==> #[trigger] placed_var(sorted, x)[i] == x
                || sorted.contains(placed_var(sorted, x)[i]),
    decreases sorted.len(),
{
    broadcast use vstd::seq_lib::group_to_multiset_ensures;

    let out = placed_var(sorted, x);
    if sorted.len() > 0 && text::text_after(sorted.last().name, x.name) {
        let init = sorted.drop_last();
        let last = sorted.last();
        assert(names_sorted(init)) by {
            assert forall|i: int, j: int| 0 <= i < j < init.len() implies !text::text_after(
                (#[trigger] init[i]).name,
                (#[trigger] init[j]).name,
            ) by {
                assert(init[i] == sorted[i] && init[j] == sorted[j]);
            }
        }
        placing_a_var(init, x);
        let inner = placed_var(init, x);
        assert(sorted =~= init.push(last));
        assert forall|i: int, j: int| 0 <= i < j < out.len() implies !text::text_after(
            (#[trigger] out[i]).name,
            (#[trigger] out[j]).name,
        ) by {
            if j == out.len() - 1 {
                assert(out[i] == inner[i]);
                if inner[i] == x {
                    text::text_after_is_an_order(x.name, last.name, x.name);
                } else {
                    let k = choose|k: int| 0 <= k < init.len() && init[k] == inner[i];
                    assert(sorted[k] == inner[i]);
                    assert(sorted[sorted.len() - 1] == last);
                }
            } else {
                assert(out[i] == inner[i] && out[j] == inner[j]);
            }
        }
        assert forall|i: int| 0 <= i <= sorted.len() implies #[trigger] out[i] == x
            || sorted.contains(out[i]) by {
            if i < sorted.len() {
                assert(out[i] == inner[i]);
                if inner[i] != x {
                    let k = choose|k: int| 0 <= k < init.len() && init[k] == inner[i];
                    assert(sorted[k] == inner[i]);
                }
            } else {
                assert(sorted[sorted.len() - 1] == out[i]);
            }
        }
    } else {
        assert forall|i: int, j: int| 0 <= i < j < out.len() implies !text::text_after(
            (#[trigger] out[i]).name,
            (#[trigger] out[j]).name,
        ) by {
            if j == sorted.len() {
                if i < sorted.len() - 1 {
                    let last = sorted[sorted.len() - 1];
                    assert(!text::text_after(sorted[i].name, last.name));
                    text::text_after_is_an_order(sorted[i].name, last.name, x.name);
                }
            }
        }
        assert forall|i: int| 0 <= i <= sorted.len() implies #[trigger] out[i] == x
            || sorted.contains(out[i]) by {
            if i < sorted.len() {
                assert(sorted[i] == out[i]);
            }
        }
    }
}

/// The variable list is sorted by name, and holds exactly the variables that
/// the shell sees.
pub proof fn listed_variables_are_sorted(vars: Seq<VisibleView>)
    ensures
        names_sorted(vars_by_name(vars)),
        vars_by_name(vars).to_multiset() == vars.to_multiset(),
    decreases vars.len(),
{
    broadcast use vstd::seq_lib::group_to_multiset_ensures;

    if vars.len() > 0 {
        listed_variables_are_sorted(vars.drop_last());
        placing_a_var(vars_by_name(vars.drop_last()), vars.last());
        assert(vars =~= vars.drop_last().push(vars.last()));
    } else {
        assert(vars_by_name(vars) =~= vars);
    }
}

proof fn placed_var_is_inserted(sorted: Seq<VisibleView>, x: VisibleView, p: int)
    requires
        0 <= p <= sorted.len(),
        forall|k: int| p <= k < sorted.len() ==> text::text_after((#[trigger] sorted[k]).name, x.name),
        p > 0 ==> !text::text_after(sorted[p - 1].name, x.name),
    ensures
        placed_var(sorted, x) == sorted.insert(p, x),
    decreases sorted.len(),
{
    if sorted.len() > p {
        placed_var_is_inserted(sorted.drop_last(), x, p);
        assert(sorted.insert(p, x) =~= sorted.drop_last().insert(p, x).push(sorted.last()));
    } else {
        assert(sorted.insert(p, x) =~= sorted.push(x));
    }
}

fn place_var(sorted: &mut Vec<VisibleVar>, x: VisibleVar)
    ensures
        registry::visibles_view(final(sorted)@) == placed_var(
            registry::visibles_view(old(sorted)@),
            x@,
        ),
{
    let ghost was = registry::visibles_view(sorted@);
    let ghost xv = x@;
    let mut p: usize = sorted.len();
    while p > 0 && text::is_after(sorted[p - 1].name.as_str(), x.name.as_str())
        invariant
            p <= sorted@.len(),
            was == registry::visibles_view(sorted@),
            xv == x@,
            forall|k: int| p <= k < was.len() ==> text::text_after((#[trigger] was[k]).name, xv.name),
        decreases p,
    {
        p = p - 1;
    }
    proof {
        placed_var_is_inserted(was, xv, p as int);
    }
    sorted.insert(p, x);
    proof {
        assert(registry::visibles_view(sorted@) =~= was.insert(p as int, xv));
    }
}

fn new_var_row(v: &VisibleVar) -> (r: Value)
    ensures
        r@ == var_row(v@),
{
    let mut fields = Fields::new();
    proof {
        assert(fields@ =~= Seq::empty());
    }
    fields.insert("name".to_owned(), Value::Str(v.name.clone()));
    let origin = match v.origin {
        VarOrigin::Host => "host".to_owned(),
        VarOrigin::Session => "session".to_owned(),
    };
    fields.insert("scope".to_owned(), Value::Str(origin));
    fields.insert("value".to_owned(), v.value.clone());
    Value::Record(fields)
}

/// `vars`: what the names in this shell resolve to.
pub open spec fn var_rows(ticket: Ticket, replies: ReplySeq) -> Result<DataView, StopView> {
    match ask::reply_to(replies, QueryView::Vars(ticket)) {
        Some(ReplyView::Vars(vars)) => Ok(
            DataView::Value(
                ValueView::List(vars_by_name(vars).map_values(|v: VisibleView| var_row(v))),
            ),
        ),
        _ => Err(StopView::Need(QueryView::Vars(ticket))),
    }
}

pub fn vars(ticket: Ticket, replies: &Replies) -> (r: Result<PipelineData, Stop>)
    ensures
        data_result(r) == var_rows(ticket, replies@),
{
    let query = Query::Vars(ticket);
    match replies.find(&query) {
        Some(Reply::Vars(vars)) => {
            let ghost all = registry::visibles_view(vars@);
            let mut sorted: Vec<VisibleVar> = Vec::new();
            let mut i: usize = 0;
            proof {
                assert(registry::visibles_view(sorted@) =~= vars_by_name(all.take(0)));
            }
            while i < vars.len()
                invariant
                    i <= vars@.len(),
                    all == registry::visibles_view(vars@),
                    registry::visibles_view(sorted@) == vars_by_name(all.take(i as int)),
                decreases vars@.len() - i,
            {
                proof {
                    assert(all.take(i + 1).drop_last() =~= all.take(i as int));
                    assert(all.take(i + 1).last() == vars@[i as int]@);
                }
                place_var(&mut sorted, vars[i].clone());
                i = i + 1;
            }
            proof {
                assert(all.take(all.len() as int) =~= all);
            }
            let mut out: Vec<Value> = Vec::new();
            let mut k: usize = 0;
            while k < sorted.len()
                invariant
                    k <= sorted@.len(),
                    out@.len() == k,
                    forall|m: int| 0 <= m < k ==> (#[trigger] out@[m])@ == var_row(sorted@[m]@),
                decreases sorted@.len() - k,
            {
                out.push(new_var_row(&sorted[k]));
                k = k + 1;
            }
            proof {
                assert(value::values_view(out@) =~= registry::visibles_view(sorted@).map_values(
                    |v: VisibleView| var_row(v),
                ));
            }
            Ok(PipelineData::Value(Value::List(out)))
        },
        _ => Err(Stop::Need(query)),
    }
}

/// `clear`: wipe the screen.
pub open spec fn cleared(ticket: Ticket, replies: ReplySeq) -> Result<DataView, StopView> {
    match ask::reply_to(replies, QueryView::Clear(ticket)) {
        Some(ReplyView::Done) => Ok(DataView::Empty),
        _ => Err(StopView::Need(QueryView::Clear(ticket))),
    }
}

pub fn clear(ticket: Ticket, replies: &Replies) -> (r: Result<PipelineData, Stop>)
    ensures
        data_result(r) == cleared(ticket, replies@),
{
    let query = Query::Clear(ticket);
    match replies.find(&query) {
        Some(Reply::Done) => Ok(PipelineData::Empty),
        _ => Err(Stop::Need(query)),
    }
}

/// A multiplexer action: its value, none where that is null.
pub open spec fn mux_done(action: MuxActionView, ticket: Ticket, replies: ReplySeq) -> Result<
    DataView,
    StopView,
> {
    match ask::reply_to(replies, QueryView::Mux(ticket, action)) {
        Some(ReplyView::Value(v)) => Ok(
            if v is Null {
                DataView::Empty
            } else {
                DataView::Value(v)
            },
        ),
        Some(ReplyView::Failed(e)) => failed(e),
        _ => Err(StopView::Need(QueryView::Mux(ticket, action))),
    }
}

pub fn mux_do(action: MuxAction, ticket: Ticket, replies: &Replies) -> (r: Result<
    PipelineData,
    Stop,
>)
    ensures
        data_result(r) == mux_done(action@, ticket, replies@),
{
    let query = Query::Mux(ticket, action);
    match replies.find(&query) {
        Some(Reply::Value(Value::Null)) => Ok(PipelineData::Empty),
        Some(Reply::Value(v)) => Ok(PipelineData::Value(v.clone())),
        Some(Reply::Failed(e)) => Err(Stop::Fail(e.clone())),
        _ => Err(Stop::Need(query)),
    }
}

/// The multiplexer action that a `mux …` or `session …` command stands for.
pub open spec fn action_of(which: Builtin, call: BoundCallView) -> Option<MuxActionView> {
    match which {
        Builtin::MuxSplit => Some(
            if value::lookup(call.flags, "down"@) == Some(ValueView::Bool(true)) {
                MuxActionView::SplitDown
            } else {
                MuxActionView::SplitRight
            },
        ),
        Builtin::MuxWindowNew => Some(MuxActionView::WindowNew),
        Builtin::MuxWindowNext => Some(MuxActionView::WindowNext),
        Builtin::MuxWindowPrev => Some(MuxActionView::WindowPrev),
        Builtin::MuxKillPane => Some(MuxActionView::KillPane),
        Builtin::MuxFocus => Some(MuxActionView::Focus(select::first_text(call))),
        Builtin::MuxZoom => Some(MuxActionView::Zoom),
        Builtin::MuxHide => Some(MuxActionView::Hide),
        Builtin::SessionNew => Some(
            MuxActionView::SessionNew {
                name: if call.positionals.len() > 0 && call.positionals[0] is Str {
                    Some(call.positionals[0]->Str_0)
                } else {
                    None
                },
            },
        ),
        Builtin::SessionList => Some(MuxActionView::SessionList),
        Builtin::SessionSwitch => Some(
            MuxActionView::SessionSwitch { name: select::first_text(call) },
        ),
        Builtin::SessionNext => Some(MuxActionView::SessionNext),
        Builtin::SessionPrev => Some(MuxActionView::SessionPrev),
        _ => None,
    }
}

pub fn mux_action(which: Builtin, call: &BoundCall) -> (r: Option<MuxAction>)
    ensures
        match r {
            Some(a) => action_of(which, call@) == Some(a@),
            None => action_of(which, call@) is None,
        },
{
    match which {
        Builtin::MuxSplit => if call.has_flag("down") {
            Some(MuxAction::SplitDown)
        } else {
            Some(MuxAction::SplitRight)
        },
        Builtin::MuxWindowNew => Some(MuxAction::WindowNew),
        Builtin::MuxWindowNext => Some(MuxAction::WindowNext),
        Builtin::MuxWindowPrev => Some(MuxAction::WindowPrev),
        Builtin::MuxKillPane => Some(MuxAction::KillPane),
        Builtin::MuxFocus => Some(MuxAction::Focus(select::take_first_text(call))),
        Builtin::MuxZoom => Some(MuxAction::Zoom),
        Builtin::MuxHide => Some(MuxAction::Hide),
        Builtin::SessionNew => {
            if call.positionals.len() > 0 {
                proof {
                    assert(call@.positionals[0] == call.positionals@[0]@);
                }
                match &call.positionals[0] {
                    Value::Str(s) => {
                        return Some(MuxAction::SessionNew { name: Some(s.clone()) });
                    },
                    _ => {},
                }
            }
            Some(MuxAction::SessionNew { name: None })
        },
        Builtin::SessionList => Some(MuxAction::SessionList),
        Builtin::SessionSwitch => Some(
            MuxAction::SessionSwitch { name: select::take_first_text(call) },
        ),
        Builtin::SessionNext => Some(MuxAction::SessionNext),
        Builtin::SessionPrev => Some(MuxAction::SessionPrev),
        _ => None,
    }
}

/// Does a command take its input item by item?
pub open spec fn streams(which: Builtin) -> bool {
    match which {
        Builtin::Grep => true,
        Builtin::MapEach => true,
        Builtin::Filter => true,
        Builtin::Head => true,
        _ => false,
    }
}

/// What a collecting command gives for its whole input.
#[verifier::opaque]
pub open spec fn ran(
    which: Builtin,
    call: BoundCallView,
    input: DataView,
    width: u16,
    step: u64,
    replies: ReplySeq,
) -> Result<DataView, StopView> {
    let value = input.value();
    let ticket = Ticket { step, nth: 0 };
    match which {
        Builtin::Echo => Ok(echoed(call)),
        Builtin::Get => gotten(call, value),
        Builtin::Tail => tailed(call, value),
        Builtin::Length => measured(value),
        Builtin::SortBy => match sort::sorted_by(call, value, step, replies) {
            Ok(v) => Ok(DataView::Value(v)),
            Err(e) => Err(e),
        },
        Builtin::StrUpcase => mapped_strings("str upcase"@, call, value, true),
        Builtin::StrDowncase => mapped_strings("str downcase"@, call, value, false),
        Builtin::ToJson => written_json(call, value, replies),
        Builtin::FromJson => read_json(call, value, replies),
        Builtin::Table => tabled(value, width, replies),
        Builtin::Help => helped(call, replies),
        Builtin::History => recalled(replies),
        Builtin::Vars => var_rows(ticket, replies),
        Builtin::Clear => cleared(ticket, replies),
        _ => match action_of(which, call) {
            Some(action) => mux_done(action, ticket, replies),
            None => Ok(DataView::Empty),
        },
    }
}

/// Run a collecting command on its whole input.
pub fn run(
    which: Builtin,
    call: &BoundCall,
    input: PipelineData,
    width: u16,
    step: u64,
    replies: &Replies,
) -> (r: Result<PipelineData, Stop>)
    requires
        !streams(which),
    ensures
        data_result(r) == ran(which, call@, input@, width, step, replies@),
{
    proof {
        reveal(ran);
    }
    let value = input.into_value();
    let ticket = Ticket { step, nth: 0 };
    match which {
        Builtin::Echo => Ok(echo(call)),
        Builtin::Get => get(call, value),
        Builtin::Tail => tail(call, value),
        Builtin::Length => length(value),
        Builtin::SortBy => match sort::sort_by(call, value, step, replies) {
            Ok(v) => Ok(PipelineData::Value(v)),
            Err(e) => Err(e),
        },
        Builtin::StrUpcase => map_strings("str upcase", call, value, true),
        Builtin::StrDowncase => map_strings("str downcase", call, value, false),
        Builtin::ToJson => to_json(call, value, replies),
        Builtin::FromJson => from_json(call, value, replies),
        Builtin::Table => table(value, width, replies),
        Builtin::Help => help(call, replies),
        Builtin::History => history(replies),
        Builtin::Vars => vars(ticket, replies),
        Builtin::Clear => clear(ticket, replies),
        _ => match mux_action(which, call) {
            Some(action) => mux_do(action, ticket, replies),
            None => Ok(PipelineData::Empty),
        },
    }
}

} // verus!
