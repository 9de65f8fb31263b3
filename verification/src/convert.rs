//! Values of the host as shell values.
//!
//! A host number has no integer type of its own, so that integral numbers
//! become `Int`: reading every number as a `Float` would make `1` a `1.0`.

use crate::float::Float;
use crate::lex;
use crate::text;
use crate::value;
use crate::value::{Fields, Value, ValueView, MAX_SAFE_INT};
use vstd::prelude::*;

verus! {

broadcast use crate::value::value_view_cases;

/// A value as the host holds it.
pub enum HostValue {
    /// Null, or a value that was never given.
    Nothing,
    Bool(bool),
    /// A number, with the integer that it equals where it is a whole number
    /// within the range of an `i64`.
    Number(Float, Option<i64>),
    Text(String),
    /// Raw bytes.
    Bytes(Vec<u8>),
    List(Vec<HostValue>),
    Object(Vec<(String, HostValue)>),
    /// What has no counterpart here, with the host's name for its type.
    Other(String),
}

/// A host value as a shell value, or why there is none. A whole number is an
/// `Int` up to 2^53, as in the source of a line.
pub open spec fn converted(v: HostValue) -> Result<ValueView, Seq<char>>
    decreases v, 0nat,
{
    match v {
        HostValue::Nothing => Ok(ValueView::Null),
        HostValue::Bool(b) => Ok(ValueView::Bool(b)),
        HostValue::Number(f, whole) => match whole {
            Some(n) => if lex::js_safe(n as int) {
                Ok(ValueView::Int(n))
            } else {
                Ok(ValueView::Float(f))
            },
            None => Ok(ValueView::Float(f)),
        },
        HostValue::Text(s) => Ok(ValueView::Str(s@)),
        HostValue::Bytes(b) => Ok(ValueView::Bytes(b@)),
        HostValue::List(items) => match converted_items(items@, items@.len()) {
            Ok(list) => Ok(ValueView::List(list)),
            Err(e) => Err(e),
        },
        HostValue::Object(entries) => match converted_fields(entries@, entries@.len()) {
            Ok(fields) => Ok(ValueView::Record(fields)),
            Err(e) => Err(e),
        },
        HostValue::Other(name) => Err(
            "cannot convert a JS "@ + name@ + " into a shell value"@,
        ),
    }
}

/// The first `n` items of a list.
pub open spec fn converted_items(items: Seq<HostValue>, n: nat) -> Result<
    Seq<ValueView>,
    Seq<char>,
>
    decreases items, n,
{
    if n == 0 || n > items.len() {
        Ok(Seq::empty())
    } else {
        match converted_items(items, (n - 1) as nat) {
            Err(e) => Err(e),
            Ok(before) => match converted(items[n - 1]) {
                Err(e) => Err(e),
                Ok(v) => Ok(before.push(v)),
            },
        }
    }
}

/// The first `n` entries of an object.
pub open spec fn converted_fields(entries: Seq<(String, HostValue)>, n: nat) -> Result<
    Seq<(Seq<char>, ValueView)>,
    Seq<char>,
>
    decreases entries, n,
{
    if n == 0 || n > entries.len() {
        Ok(Seq::empty())
    } else {
        match converted_fields(entries, (n - 1) as nat) {
            Err(e) => Err(e),
            Ok(before) => match converted(entries[n - 1].1) {
                Err(e) => Err(e),
                Ok(v) => Ok(value::inserted(before, entries[n - 1].0@, v)),
            },
        }
    }
}

proof fn item_failure_stays(items: Seq<HostValue>, n: nat, m: nat)
    requires
        n <= m <= items.len(),
        converted_items(items, n) is Err,
    ensures
        converted_items(items, m) == converted_items(items, n),
    decreases m,
{
    if n < m {
        item_failure_stays(items, n, (m - 1) as nat);
    }
}

proof fn field_failure_stays(entries: Seq<(String, HostValue)>, n: nat, m: nat)
    requires
        n <= m <= entries.len(),
        converted_fields(entries, n) is Err,
    ensures
        converted_fields(entries, m) == converted_fields(entries, n),
    decreases m,
{
    if n < m {
        field_failure_stays(entries, n, (m - 1) as nat);
    }
}

pub open spec fn conversion(r: Result<Value, String>) -> Result<ValueView, Seq<char>> {
    match r {
        Ok(v) => Ok(v@),
        Err(e) => Err(e@),
    }
}

/// A host value as a shell value.
pub fn js_to_value(v: &HostValue) -> (r: Result<Value, String>)
    ensures
        conversion(r) == converted(*v),
    decreases v,
{
    match v {
        HostValue::Nothing => Ok(Value::Null),
        HostValue::Bool(b) => Ok(Value::Bool(*b)),
        HostValue::Number(f, whole) => match whole {
            Some(n) => {
                let n: i64 = *n;
                if -MAX_SAFE_INT <= n && n <= MAX_SAFE_INT {
                    Ok(Value::Int(n))
                } else {
                    Ok(Value::Float(*f))
                }
            },
            None => Ok(Value::Float(*f)),
        },
        HostValue::Text(s) => Ok(Value::Str(s.clone())),
        HostValue::Bytes(b) => Ok(Value::Bytes(value::clone_bytes(b))),
        HostValue::List(items) => {
            let mut out: Vec<Value> = Vec::new();
            let mut i: usize = 0;
            proof {
                assert(value::values_view(out@) =~= Seq::empty());
            }
            while i < items.len()
                invariant
                    i <= items@.len(),
                    v == HostValue::List(*items),
                    converted_items(items@, i as nat) == Ok::<Seq<ValueView>, Seq<char>>(
                        value::values_view(out@),
                    ),
                decreases items@.len() - i,
            {
                proof {
                    assert(decreases_to!(v => items@[i as int]));
                }
                match js_to_value(&items[i]) {
                    Ok(x) => {
                        let ghost before = value::values_view(out@);
                        let ghost xv = x@;
                        out.push(x);
                        proof {
                            assert(value::values_view(out@) =~= before.push(xv));
                        }
                    },
                    Err(e) => {
                        proof {
                            item_failure_stays(items@, (i + 1) as nat, items@.len());
                        }
                        return Err(e);
                    },
                }
                i = i + 1;
            }
            Ok(Value::List(out))
        },
        HostValue::Object(entries) => {
            let mut out = Fields::new();
            let mut i: usize = 0;
            proof {
                assert(out@ =~= Seq::empty());
            }
            while i < entries.len()
                invariant
                    i <= entries@.len(),
                    v == HostValue::Object(*entries),
                    converted_fields(entries@, i as nat) == Ok::<
                        Seq<(Seq<char>, ValueView)>,
                        Seq<char>,
                    >(out@),
                decreases entries@.len() - i,
            {
                proof {
                    assert(decreases_to!(v => entries@[i as int]));
                    assert(decreases_to!(entries@[i as int] => entries@[i as int].1));
                }
                match js_to_value(&entries[i].1) {
                    Ok(x) => {
                        out.insert(entries[i].0.clone(), x);
                    },
                    Err(e) => {
                        proof {
                            field_failure_stays(entries@, (i + 1) as nat, entries@.len());
                        }
                        return Err(e);
                    },
                }
                i = i + 1;
            }
            Ok(Value::Record(out))
        },
        HostValue::Other(name) => Err(
            text::around("cannot convert a JS ", name.as_str(), " into a shell value"),
        ),
    }
}

} // verus!
