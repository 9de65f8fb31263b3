//! The two rules that reconcile the streaming transport with commands that
//! still return one whole value.
//!
//! `flatten` runs on the way *out* of a collecting producer; `collect` runs
//! on the way *in* to a collecting consumer. Because both live here, the
//! streaming commands only ever see individual items and never flatten.

use crate::registry;
use crate::registry::{DataView, PipelineData};
use crate::value;
use crate::value::{Value, ValueView};
use vstd::prelude::*;

verus! {

broadcast use crate::value::value_view_cases;

/// Values as items.
pub open spec fn as_items(values: Seq<ValueView>) -> Seq<DataView> {
    values.map_values(|v: ValueView| DataView::Value(v))
}

/// A producer's result as items. A `List` is a batch: its elements go one at a
/// time (one level only). A scalar is one item; `Empty` is none; `Rendered`
/// text is one item, kept whole.
pub open spec fn flattened(data: DataView) -> Seq<DataView> {
    match data {
        DataView::Empty => Seq::empty(),
        DataView::Value(ValueView::List(items)) => as_items(items),
        other => seq![other],
    }
}

/// The values that items stand for.
pub open spec fn as_values(items: Seq<DataView>) -> Seq<ValueView> {
    items.map_values(|d: DataView| d.value())
}

/// A whole stream as one value: N items become a `List`; exactly one item
/// stays that value (unwrapped, so `echo 5` is a scalar, not `[5]`); zero
/// items are `Empty`.
pub open spec fn collected(values: Seq<ValueView>) -> DataView {
    if values.len() == 0 {
        DataView::Empty
    } else if values.len() == 1 {
        DataView::Value(values[0])
    } else {
        DataView::Value(ValueView::List(values))
    }
}

/// Collecting gives back the value that was flattened. Lists of fewer than two
/// items are the exception: `[x]` comes back as `x`, and `[]` as nothing.
pub proof fn collecting_undoes_flattening(data: DataView)
    requires
        !(data matches DataView::Value(ValueView::List(items)) && items.len() < 2),
    ensures
        collected(as_values(flattened(data))).value() == data.value(),
{
    match data {
        DataView::Value(ValueView::List(items)) => {
            assert(as_values(as_items(items)) =~= items);
        },
        DataView::Empty => {
            assert(as_values(flattened(data)) =~= Seq::empty());
        },
        other => {
            assert(as_values(flattened(data)) =~= seq![other.value()]);
        },
    }
}

/// A producer's result as the items to send downstream.
pub fn flatten(data: PipelineData) -> (r: Vec<PipelineData>)
    ensures
        registry::items_view(r@) == flattened(data@),
{
    let mut out: Vec<PipelineData> = Vec::new();
    match data {
        PipelineData::Empty => {
            proof {
                assert(registry::items_view(out@) =~= flattened(data@));
            }
        },
        PipelineData::Value(Value::List(items)) => {
            let mut i: usize = 0;
            while i < items.len()
                invariant
                    i <= items@.len(),
                    out@.len() == i,
                    forall|k: int|
                        0 <= k < i ==> (#[trigger] out@[k])@ == DataView::Value(items@[k]@),
                decreases items@.len() - i,
            {
                out.push(PipelineData::Value(items[i].clone()));
                i = i + 1;
            }
            proof {
                assert(registry::items_view(out@) =~= as_items(value::values_view(items@)));
            }
        },
        PipelineData::Value(v) => {
            out.push(PipelineData::Value(v));
            proof {
                assert(registry::items_view(out@) =~= flattened(data@));
            }
        },
        PipelineData::Rendered(s) => {
            out.push(PipelineData::Rendered(s));
            proof {
                assert(registry::items_view(out@) =~= flattened(data@));
            }
        },
    }
    out
}

/// Gather a whole stream back into one value for a collecting command.
/// `Rendered` items have degraded to `Str` by then, which is where a trusted
/// stream loses its trust on consumption.
pub fn collect(values: Vec<Value>) -> (r: PipelineData)
    ensures
        r@ == collected(value::values_view(values@)),
{
    if values.len() == 0 {
        PipelineData::Empty
    } else if values.len() == 1 {
        proof {
            assert(value::values_view(values@)[0] == values@[0]@);
        }
        PipelineData::Value(values[0].clone())
    } else {
        PipelineData::Value(Value::List(values))
    }
}

/// What a collecting command takes as its input. An emptied stream comes in as
/// an empty `List`, so that `length` of no matches is 0; only a command that has
/// nothing before it in the pipeline takes no input at all.
pub open spec fn gathered(values: Seq<ValueView>, first: bool) -> DataView {
    if values.len() == 0 && !first {
        DataView::Value(ValueView::List(Seq::empty()))
    } else {
        collected(values)
    }
}

pub fn gather(values: Vec<Value>, first: bool) -> (r: PipelineData)
    ensures
        r@ == gathered(value::values_view(values@), first),
{
    if values.len() == 0 && !first {
        proof {
            assert(value::values_view(values@) =~= Seq::<ValueView>::empty());
        }
        PipelineData::Value(Value::List(values))
    } else {
        collect(values)
    }
}

} // verus!
