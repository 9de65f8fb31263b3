//! The structured value type that flows through pipes.

use crate::float;
use crate::float::{Float, Side};
use crate::text;
use indexmap::IndexMap;
use std::cmp::Ordering;
use vstd::prelude::*;

verus! {

/// Largest integer magnitude representable exactly in a JS number (2^53).
/// The lexer rejects literals beyond this so shell-authored values can't
/// silently lose precision crossing the WASM boundary.
pub const MAX_SAFE_INT: i64 = 9_007_199_254_740_992;

/// Structured value. Tables are `List` of `Record`s.
#[derive(Debug)]
pub enum Value {
    Null,
    Bool(bool),
    Int(i64),
    Float(Float),
    Str(String),
    Bytes(Vec<u8>),
    List(Vec<Value>),
    Record(Fields),
}

/// The fields of a record in insertion order, each name once: an `IndexMap`.
#[derive(Debug)]
#[verifier::external_body]
pub struct Fields {
    entries: IndexMap<String, Value>,
}

/// The fields in their order, each by its name and what its value holds.
pub uninterp spec fn field_entries(f: Fields) -> Seq<(Seq<char>, ValueView)>;

/// What a `Value` holds.
pub enum ValueView {
    Null,
    Bool(bool),
    Int(i64),
    Float(Float),
    Str(Seq<char>),
    Bytes(Seq<u8>),
    List(Seq<ValueView>),
    Record(Seq<(Seq<char>, ValueView)>),
}

pub closed spec fn value_view(v: Value) -> ValueView
    decreases v,
{
    match v {
        Value::Null => ValueView::Null,
        Value::Bool(b) => ValueView::Bool(b),
        Value::Int(n) => ValueView::Int(n),
        Value::Float(f) => ValueView::Float(f),
        Value::Str(s) => ValueView::Str(s@),
        Value::Bytes(b) => ValueView::Bytes(b@),
        Value::List(items) => ValueView::List(
            Seq::new(
                items@.len(),
                |i: int|
                    if 0 <= i < items@.len() {
                        value_view(items@[i])
                    } else {
                        ValueView::Null
                    },
            ),
        ),
        Value::Record(fields) => ValueView::Record(field_entries(fields)),
    }
}

impl View for Value {
    type V = ValueView;

    open spec fn view(&self) -> ValueView {
        value_view(*self)
    }
}

impl View for Fields {
    type V = Seq<(Seq<char>, ValueView)>;

    open spec fn view(&self) -> Seq<(Seq<char>, ValueView)> {
        field_entries(*self)
    }
}

/// The views of a list of values.
pub open spec fn values_view(items: Seq<Value>) -> Seq<ValueView> {
    Seq::new(items.len(), |i: int| items[i]@)
}

/// A value's view by its variant.
pub broadcast proof fn value_view_cases(v: Value)
    ensures
        #[trigger] v@ == (match v {
            Value::Null => ValueView::Null,
            Value::Bool(b) => ValueView::Bool(b),
            Value::Int(n) => ValueView::Int(n),
            Value::Float(f) => ValueView::Float(f),
            Value::Str(s) => ValueView::Str(s@),
            Value::Bytes(b) => ValueView::Bytes(b@),
            Value::List(items) => ValueView::List(values_view(items@)),
            Value::Record(fields) => ValueView::Record(fields@),
        }),
{
    match v {
        Value::List(items) => {
            assert(v@->List_0 =~= values_view(items@));
        },
        _ => {},
    }
}

/// Index of the first field of that name.
pub open spec fn position(fields: Seq<(Seq<char>, ValueView)>, key: Seq<char>) -> Option<int>
    decreases fields.len(),
{
    if fields.len() == 0 {
        None
    } else {
        match position(fields.drop_last(), key) {
            Some(i) => Some(i),
            None => if fields.last().0 == key {
                Some(fields.len() - 1)
            } else {
                None
            },
        }
    }
}

/// The value of a field.
pub open spec fn lookup(fields: Seq<(Seq<char>, ValueView)>, key: Seq<char>) -> Option<ValueView> {
    match position(fields, key) {
        Some(i) => Some(fields[i].1),
        None => None,
    }
}

/// The fields after one is set: in its place where the name is there, else at
/// the end.
pub open spec fn inserted(
    fields: Seq<(Seq<char>, ValueView)>,
    key: Seq<char>,
    value: ValueView,
) -> Seq<(Seq<char>, ValueView)> {
    match position(fields, key) {
        Some(i) => fields.update(i, (key, value)),
        None => fields.push((key, value)),
    }
}

/// The fields without the one of that name, the others in their order.
pub open spec fn removed(
    fields: Seq<(Seq<char>, ValueView)>,
    key: Seq<char>,
) -> Seq<(Seq<char>, ValueView)> {
    match position(fields, key) {
        Some(i) => fields.remove(i),
        None => fields,
    }
}

/// Is every name there once?
pub open spec fn names_distinct(fields: Seq<(Seq<char>, ValueView)>) -> bool {
    forall|i: int, j: int|
        0 <= i < j < fields.len() ==> #[trigger] fields[i].0 != #[trigger] fields[j].0
}

/// The names in order.
pub open spec fn field_names(fields: Seq<(Seq<char>, ValueView)>) -> Seq<Seq<char>> {
    fields.map_values(|f: (Seq<char>, ValueView)| f.0)
}

/// What `position` finds.
pub proof fn position_is_first(fields: Seq<(Seq<char>, ValueView)>, key: Seq<char>)
    ensures
        match position(fields, key) {
            Some(i) => 0 <= i < fields.len() && fields[i].0 == key && forall|j: int|
                0 <= j < i ==> #[trigger] fields[j].0 != key,
            None => forall|j: int| 0 <= j < fields.len() ==> #[trigger] fields[j].0 != key,
        },
    decreases fields.len(),
{
    if fields.len() > 0 {
        let init = fields.drop_last();
        position_is_first(init, key);
        assert forall|j: int| 0 <= j < init.len() implies init[j] == fields[j] by {}
    }
}

/// Setting and removing keep every name there once; a set field reads back,
/// a removed one is gone, and the other fields read as before.
pub proof fn fields_behave_as_a_map(
    fields: Seq<(Seq<char>, ValueView)>,
    key: Seq<char>,
    value: ValueView,
    other: Seq<char>,
)
    requires
        names_distinct(fields),
        other != key,
    ensures
        names_distinct(inserted(fields, key, value)),
        names_distinct(removed(fields, key)),
        lookup(inserted(fields, key, value), key) == Some(value),
        lookup(removed(fields, key), key) is None,
        lookup(inserted(fields, key, value), other) == lookup(fields, other),
        lookup(removed(fields, key), other) == lookup(fields, other),
{
    position_is_first(fields, key);
    position_is_first(fields, other);
    let ins = inserted(fields, key, value);
    let rem = removed(fields, key);
    position_is_first(ins, key);
    position_is_first(ins, other);
    position_is_first(rem, key);
    position_is_first(rem, other);
    match position(fields, key) {
        Some(p) => {
            assert(ins[p].0 == key);
            assert forall|j: int| 0 <= j < rem.len() implies rem[j] == fields[if j < p {
                j
            } else {
                j + 1
            }] by {}
            match position(fields, other) {
                Some(q) => {
                    assert(ins[q].0 == other);
                    assert(rem[if q < p {
                        q
                    } else {
                        q - 1
                    }].0 == other);
                },
                None => {},
            }
        },
        None => {
            assert(ins[fields.len() as int].0 == key);
            match position(fields, other) {
                Some(q) => {
                    assert(ins[q].0 == other);
                },
                None => {},
            }
        },
    }
}

/// `IndexMap::new`: no fields.
#[verifier::external_body]
fn no_fields() -> (r: Fields)
    ensures
        field_entries(r) == Seq::<(Seq<char>, ValueView)>::empty(),
{
    Fields { entries: IndexMap::new() }
}

/// `IndexMap::len`: how many fields there are.
#[verifier::external_body]
fn field_count(f: &Fields) -> (r: usize)
    ensures
        r == field_entries(*f).len(),
{
    f.entries.len()
}

/// `IndexMap::get_index`: the field at a place in the order, if the place is
/// taken. Its key is in the map once.
#[verifier::external_body]
fn field_at(f: &Fields, i: usize) -> (r: Option<(&String, &Value)>)
    ensures
        match r {
            Some((k, v)) => {
                &&& i < field_entries(*f).len()
                &&& field_entries(*f)[i as int] == (k@, v@)
                &&& forall|j: int|
                    0 <= j < field_entries(*f).len() && j != i ==> (#[trigger] field_entries(
                        *f,
                    )[j]).0 != k@
            },
            None => i >= field_entries(*f).len(),
        },
{
    f.entries.get_index(i)
}

/// `IndexMap::get_index_of`: the place of a key in the order, if it is present.
#[verifier::external_body]
fn field_place(f: &Fields, key: &str) -> (r: Option<usize>)
    ensures
        match r {
            Some(i) => position(field_entries(*f), key@) == Some(i as int),
            None => position(field_entries(*f), key@) is None,
        },
{
    f.entries.get_index_of(key)
}

/// `IndexMap::insert`: a key that is present keeps its place in the order and
/// gets the new value; a new key goes to the end.
#[verifier::external_body]
fn put_field(f: &mut Fields, key: String, value: Value)
    ensures
        field_entries(*final(f)) == inserted(field_entries(*old(f)), key@, value@),
{
    f.entries.insert(key, value);
}

/// `IndexMap::shift_remove`: takes a key's entry out, hands its value out and
/// keeps the order of the others.
#[verifier::external_body]
fn take_field(f: &mut Fields, key: &str) -> (r: Option<Value>)
    ensures
        field_entries(*final(f)) == removed(field_entries(*old(f)), key@),
        match r {
            Some(v) => lookup(field_entries(*old(f)), key@) == Some(v@),
            None => lookup(field_entries(*old(f)), key@) is None,
        },
{
    f.entries.shift_remove(key)
}

impl Fields {
    pub fn new() -> (r: Self)
        ensures
            r@.len() == 0,
            names_distinct(r@),
    {
        no_fields()
    }

    pub fn len(&self) -> (r: usize)
        ensures
            r == self@.len(),
    {
        field_count(self)
    }

    /// The name of the field at an index.
    pub fn name(&self, i: usize) -> (r: &String)
        requires
            i < self@.len(),
        ensures
            r@ == self@[i as int].0,
    {
        field_at(self, i).unwrap().0
    }

    /// The value of the field at an index.
    pub fn at(&self, i: usize) -> (r: &Value)
        requires
            i < self@.len(),
        ensures
            r@ == self@[i as int].1,
    {
        field_at(self, i).unwrap().1
    }

    /// Index of the field of that name.
    pub fn find(&self, key: &str) -> (r: Option<usize>)
        ensures
            match r {
                Some(i) => position(self@, key@) == Some(i as int) && i < self@.len(),
                None => position(self@, key@) is None,
            },
    {
        proof {
            position_is_first(self@, key@);
        }
        field_place(self, key)
    }

    /// The value of the field of that name.
    pub fn get(&self, key: &str) -> (r: Option<&Value>)
        ensures
            match r {
                Some(v) => lookup(self@, key@) == Some(v@),
                None => lookup(self@, key@) is None,
            },
    {
        match self.find(key) {
            Some(i) => Some(self.at(i)),
            None => None,
        }
    }

    /// Set a field.
    pub fn insert(&mut self, key: String, value: Value)
        ensures
            final(self)@ == inserted(old(self)@, key@, value@),
            names_distinct(old(self)@) ==> names_distinct(final(self)@),
    {
        proof {
            position_is_first(self@, key@);
        }
        put_field(self, key, value);
    }

    /// Remove a field and hand its value out; the others keep their order.
    pub fn remove(&mut self, key: &str) -> (r: Option<Value>)
        ensures
            final(self)@ == removed(old(self)@, key@),
            match r {
                Some(v) => lookup(old(self)@, key@) == Some(v@),
                None => lookup(old(self)@, key@) is None,
            },
            names_distinct(old(self)@) ==> names_distinct(final(self)@),
    {
        proof {
            position_is_first(self@, key@);
        }
        take_field(self, key)
    }
}

/// A field put behind those before it goes to the end.
proof fn the_next_field_goes_to_the_end(fields: Seq<(Seq<char>, ValueView)>, i: int)
    requires
        0 <= i < fields.len(),
        forall|j: int| 0 <= j < i ==> (#[trigger] fields[j]).0 != fields[i].0,
    ensures
        inserted(fields.take(i), fields[i].0, fields[i].1) == fields.take(i + 1),
{
    let before = fields.take(i);
    position_is_first(before, fields[i].0);
    if let Some(j) = position(before, fields[i].0) {
        assert(before[j] == fields[j]);
    }
    assert(before.push(fields[i]) =~= fields.take(i + 1));
}

/// A copy of raw bytes.
pub fn clone_bytes(bytes: &Vec<u8>) -> (r: Vec<u8>)
    ensures
        r@ == bytes@,
{
    let mut out: Vec<u8> = Vec::new();
    let mut i: usize = 0;
    while i < bytes.len()
        invariant
            i <= bytes@.len(),
            out@ == bytes@.take(i as int),
        decreases bytes@.len() - i,
    {
        out.push(bytes[i]);
        i = i + 1;
    }
    proof {
        assert(bytes@.take(i as int) =~= bytes@);
    }
    out
}

fn same_bytes(a: &Vec<u8>, b: &Vec<u8>) -> (r: bool)
    ensures
        r == (a@ == b@),
{
    if a.len() != b.len() {
        return false;
    }
    let mut i: usize = 0;
    while i < a.len()
        invariant
            i <= a@.len(),
            a@.len() == b@.len(),
            forall|j: int| 0 <= j < i ==> #[trigger] a@[j] == b@[j],
        decreases a@.len() - i,
    {
        if a[i] != b[i] {
            return false;
        }
        i = i + 1;
    }
    proof {
        assert(a@ =~= b@);
    }
    true
}

impl Clone for Value {
    fn clone(&self) -> (r: Self)
        ensures
            r@ == self@,
        decreases self@,
    {
        broadcast use value_view_cases;

        match self {
            Value::Null => Value::Null,
            Value::Bool(b) => Value::Bool(*b),
            Value::Int(n) => Value::Int(*n),
            Value::Float(f) => Value::Float(*f),
            Value::Str(s) => Value::Str(s.clone()),
            Value::Bytes(b) => Value::Bytes(clone_bytes(b)),
            Value::List(items) => {
                let mut out: Vec<Value> = Vec::new();
                let mut i: usize = 0;
                while i < items.len()
                    invariant
                        i <= items@.len(),
                        self matches Value::List(its) && its == items,
                        self@ == ValueView::List(values_view(items@)),
                        out@.len() == i,
                        forall|j: int| 0 <= j < i ==> (#[trigger] out@[j])@ == items@[j]@,
                    decreases items@.len() - i,
                {
                    proof {
                        assert(self@->List_0[i as int] == items@[i as int]@);
                    }
                    out.push(items[i].clone());
                    i = i + 1;
                }
                proof {
                    assert(values_view(out@) =~= values_view(items@));
                }
                Value::List(out)
            },
            Value::Record(fields) => {
                let mut out = Fields::new();
                let n: usize = fields.len();
                let mut i: usize = 0;
                proof {
                    assert(out@ =~= fields@.take(0));
                }
                while i < n
                    invariant
                        i <= n,
                        n == fields@.len(),
                        self matches Value::Record(fs) && fs == fields,
                        self@ == ValueView::Record(fields@),
                        out@ == fields@.take(i as int),
                    decreases n - i,
                {
                    let (name, v) = field_at(fields, i).unwrap();
                    proof {
                        the_next_field_goes_to_the_end(fields@, i as int);
                        assert(self@->Record_0[i as int].1 == v@);
                    }
                    out.insert(name.clone(), v.clone());
                    i = i + 1;
                }
                proof {
                    assert(fields@.take(n as int) =~= fields@);
                }
                Value::Record(out)
            },
        }
    }
}

impl Clone for Fields {
    fn clone(&self) -> (r: Self)
        ensures
            r@ == self@,
    {
        let mut out = Fields::new();
        let n: usize = self.len();
        let mut i: usize = 0;
        proof {
            assert(out@ =~= self@.take(0));
        }
        while i < n
            invariant
                i <= n,
                n == self@.len(),
                out@ == self@.take(i as int),
            decreases n - i,
        {
            let (name, v) = field_at(self, i).unwrap();
            proof {
                the_next_field_goes_to_the_end(self@, i as int);
            }
            out.insert(name.clone(), v.clone());
            i = i + 1;
        }
        proof {
            assert(self@.take(n as int) =~= self@);
        }
        out
    }
}

/// A copy of a list of values.
pub fn clone_values(items: &Vec<Value>) -> (r: Vec<Value>)
    ensures
        values_view(r@) == values_view(items@),
{
    let mut out: Vec<Value> = Vec::new();
    let mut i: usize = 0;
    while i < items.len()
        invariant
            i <= items@.len(),
            out@.len() == i,
            forall|j: int| 0 <= j < i ==> (#[trigger] out@[j])@ == items@[j]@,
        decreases items@.len() - i,
    {
        out.push(items[i].clone());
        i = i + 1;
    }
    proof {
        assert(values_view(out@) =~= values_view(items@));
    }
    out
}

/// The fields that a list of entries makes, a later entry of a name replacing
/// an earlier one in its place.
pub open spec fn fields_from(entries: Seq<(String, Value)>) -> Seq<(Seq<char>, ValueView)>
    decreases entries.len(),
{
    if entries.len() == 0 {
        Seq::empty()
    } else {
        inserted(fields_from(entries.drop_last()), entries.last().0@, entries.last().1@)
    }
}

/// The name of a value's type.
pub open spec fn type_label_of(v: ValueView) -> Seq<char> {
    match v {
        ValueView::Null => "null"@,
        ValueView::Bool(_) => "bool"@,
        ValueView::Int(_) => "int"@,
        ValueView::Float(_) => "float"@,
        ValueView::Str(_) => "string"@,
        ValueView::Bytes(_) => "bytes"@,
        ValueView::List(_) => "list"@,
        ValueView::Record(_) => "record"@,
    }
}

/// Is the value a list of records alone?
pub open spec fn table(v: ValueView) -> bool {
    match v {
        ValueView::List(items) => forall|i: int| 0 <= i < items.len() ==> #[trigger] items[i] is Record,
        _ => false,
    }
}

/// Equality of values: numbers by their numeric value within their type,
/// lists item by item, records by name in whatever order.
pub open spec fn same_value(a: ValueView, b: ValueView) -> bool
    decreases a,
{
    match (a, b) {
        (ValueView::Null, ValueView::Null) => true,
        (ValueView::Bool(x), ValueView::Bool(y)) => x == y,
        (ValueView::Int(x), ValueView::Int(y)) => x == y,
        (ValueView::Float(x), ValueView::Float(y)) => float::floats_equal(x, y),
        (ValueView::Str(x), ValueView::Str(y)) => x == y,
        (ValueView::Bytes(x), ValueView::Bytes(y)) => x == y,
        (ValueView::List(x), ValueView::List(y)) => x.len() == y.len() && forall|i: int|
            0 <= i < x.len() ==> same_value(#[trigger] x[i], y[i]),
        (ValueView::Record(x), ValueView::Record(y)) => x.len() == y.len() && forall|i: int|
            0 <= i < x.len() ==> (match lookup(y, (#[trigger] x[i]).0) {
                Some(v) => same_value(x[i].1, v),
                None => false,
            }),
        _ => false,
    }
}

/// Equality as `==` in the language sees it: as `same_value`, and an integer
/// equals a float of the same numeric value.
pub open spec fn loosely_equal(a: ValueView, b: ValueView) -> bool {
    match (a, b) {
        (ValueView::Int(x), ValueView::Float(y)) => float::floats_equal(float::nearest_float(x), y),
        (ValueView::Float(x), ValueView::Int(y)) => float::floats_equal(x, float::nearest_float(y)),
        _ => same_value(a, b),
    }
}

/// How `false` and `true` compare.
pub open spec fn bool_order(a: bool, b: bool) -> Ordering {
    if a == b {
        Ordering::Equal
    } else if b {
        Ordering::Less
    } else {
        Ordering::Greater
    }
}

/// How two integers compare.
pub open spec fn int_order(a: int, b: int) -> Ordering {
    if a < b {
        Ordering::Less
    } else if a == b {
        Ordering::Equal
    } else {
        Ordering::Greater
    }
}

pub open spec fn int_of(n: i64) -> int {
    n as int
}

/// Order of values: numeric types compare across integers and floats; strings
/// and bools compare within their type; everything else is incomparable.
pub open spec fn value_order(a: ValueView, b: ValueView) -> Option<Ordering> {
    match (a, b) {
        (ValueView::Int(x), ValueView::Int(y)) => Some(int_order(int_of(x), int_of(y))),
        (ValueView::Float(x), ValueView::Float(y)) => float::float_order(x, y),
        (ValueView::Int(x), ValueView::Float(y)) => float::float_order(float::nearest_float(x), y),
        (ValueView::Float(x), ValueView::Int(y)) => float::float_order(x, float::nearest_float(y)),
        (ValueView::Str(x), ValueView::Str(y)) => Some(text::text_order(x, y)),
        (ValueView::Bool(x), ValueView::Bool(y)) => Some(bool_order(x, y)),
        (ValueView::Null, ValueView::Null) => Some(Ordering::Equal),
        _ => None,
    }
}

/// Where a type stands among the types when values of several are sorted:
/// numbers first, then strings.
pub open spec fn sort_class(v: ValueView) -> int {
    match v {
        ValueView::Int(_) => 0,
        ValueView::Float(_) => 0,
        ValueView::Str(_) => 1,
        ValueView::Bool(_) => 2,
        ValueView::Bytes(_) => 3,
        ValueView::List(_) => 4,
        ValueView::Record(_) => 5,
        ValueView::Null => 6,
    }
}

/// Where a number stands among the numbers: by its exact value, in units of the
/// least positive double. What is not a number stands behind all others.
pub open spec fn number_key(v: ValueView) -> int {
    match v {
        ValueView::Int(x) => int_of(x) * float::unit_scale(),
        ValueView::Float(x) => if x.nan() {
            0
        } else {
            x.value()
        },
        _ => 0,
    }
}

/// Is the value what is not a number?
pub open spec fn not_a_number(v: ValueView) -> bool {
    v matches ValueView::Float(x) && x.nan()
}

/// A total preorder of all values, for sorting: by type, then within numbers,
/// strings and bools.
pub open spec fn sort_order(a: ValueView, b: ValueView) -> Ordering {
    if sort_class(a) != sort_class(b) {
        int_order(sort_class(a), sort_class(b))
    } else {
        match (a, b) {
            (ValueView::Str(x), ValueView::Str(y)) => text::text_order(x, y),
            (ValueView::Bool(x), ValueView::Bool(y)) => bool_order(x, y),
            _ => if not_a_number(a) != not_a_number(b) {
                bool_order(not_a_number(a), not_a_number(b))
            } else {
                int_order(number_key(a), number_key(b))
            },
        }
    }
}

/// Sorting has an order to go by: `sort_order` is reflexive, antisymmetric up
/// to ties, and transitive, ties included.
pub proof fn sort_order_is_a_preorder(a: ValueView, b: ValueView, c: ValueView)
    ensures
        sort_order(a, a) == Ordering::Equal,
        sort_order(a, b) == Ordering::Less <==> sort_order(b, a) == Ordering::Greater,
        sort_order(a, b) != Ordering::Greater && sort_order(b, c) != Ordering::Greater
            ==> sort_order(a, c) != Ordering::Greater,
        sort_order(a, b) == Ordering::Less && sort_order(b, c) != Ordering::Greater
            ==> sort_order(a, c) == Ordering::Less,
        sort_order(a, b) != Ordering::Greater && sort_order(b, c) == Ordering::Less
            ==> sort_order(a, c) == Ordering::Less,
{
    match (a, b, c) {
        (ValueView::Str(x), ValueView::Str(y), ValueView::Str(z)) => {
            text::text_order_total(x, y, z);
            text::text_order_total(y, z, x);
            text::text_order_total(x, z, y);
            text::text_order_total(z, y, x);
            text::text_order_total(x, x, x);
        },
        (ValueView::Str(x), ValueView::Str(y), _) => {
            text::text_order_total(x, y, y);
            text::text_order_total(x, x, x);
        },
        (ValueView::Str(x), _, _) => {
            text::text_order_total(x, x, x);
        },
        _ => {},
    }
}

/// Does the value hold a float anywhere that is infinite or not a number?
pub open spec fn non_finite_inside(v: ValueView) -> bool
    decreases v,
{
    match v {
        ValueView::Float(f) => !f.finite(),
        ValueView::List(items) => exists|i: int|
            0 <= i < items.len() && non_finite_inside(#[trigger] items[i]),
        ValueView::Record(fields) => exists|i: int|
            0 <= i < fields.len() && non_finite_inside((#[trigger] fields[i]).1),
        _ => false,
    }
}

fn order_of_bools(a: bool, b: bool) -> (r: Ordering)
    ensures
        r == bool_order(a, b),
{
    if a == b {
        Ordering::Equal
    } else if b {
        Ordering::Less
    } else {
        Ordering::Greater
    }
}

fn order_of_ints(a: i64, b: i64) -> (r: Ordering)
    ensures
        r == int_order(int_of(a), int_of(b)),
{
    if a < b {
        Ordering::Less
    } else if a == b {
        Ordering::Equal
    } else {
        Ordering::Greater
    }
}

/// How two floats sort.
fn sort_floats(a: Float, b: Float) -> (r: Ordering)
    ensures
        r == sort_order(ValueView::Float(a), ValueView::Float(b)),
{
    proof {
        float::ranks_follow_values(a, b);
        float::ranks_follow_values(b, a);
    }
    if a.is_nan() {
        if b.is_nan() {
            Ordering::Equal
        } else {
            Ordering::Greater
        }
    } else if b.is_nan() {
        Ordering::Less
    } else if a.less(b) {
        Ordering::Less
    } else if b.less(a) {
        Ordering::Greater
    } else {
        Ordering::Equal
    }
}

/// How an integer and a float sort.
fn sort_mixed(n: i64, f: Float) -> (r: Ordering)
    ensures
        r == sort_order(ValueView::Int(n), ValueView::Float(f)),
{
    if f.is_nan() {
        return Ordering::Less;
    }
    match float::side_of_int(n, f) {
        Side::Below => Ordering::Less,
        Side::Level => Ordering::Equal,
        Side::Above => Ordering::Greater,
    }
}

/// Integers sort by their values, however great they are, and among floats an
/// integer stands where its value does.
pub proof fn integers_sort_exactly(a: i64, b: i64)
    ensures
        sort_order(ValueView::Int(a), ValueView::Int(b)) == int_order(int_of(a), int_of(b)),
{
    float::scaling_keeps_order(int_of(a), int_of(b));
}

impl Value {
    /// A record of the given entries.
    pub fn record(entries: Vec<(String, Value)>) -> (r: Value)
        ensures
            r@ == ValueView::Record(fields_from(entries@)),
    {
        broadcast use value_view_cases;

        let mut fields = Fields::new();
        let mut i: usize = 0;
        proof {
            assert(fields@ =~= Seq::empty());
        }
        while i < entries.len()
            invariant
                i <= entries@.len(),
                fields@ == fields_from(entries@.take(i as int)),
            decreases entries@.len() - i,
        {
            proof {
                assert(entries@.take(i + 1).drop_last() =~= entries@.take(i as int));
            }
            fields.insert(entries[i].0.clone(), entries[i].1.clone());
            i = i + 1;
        }
        proof {
            assert(entries@.take(entries@.len() as int) =~= entries@);
        }
        Value::Record(fields)
    }

    pub fn type_label(&self) -> (r: &'static str)
        ensures
            r@ == type_label_of(self@),
    {
        broadcast use value_view_cases;

        match self {
            Value::Null => "null",
            Value::Bool(_) => "bool",
            Value::Int(_) => "int",
            Value::Float(_) => "float",
            Value::Str(_) => "string",
            Value::Bytes(_) => "bytes",
            Value::List(_) => "list",
            Value::Record(_) => "record",
        }
    }

    pub fn as_str(&self) -> (r: Option<&str>)
        ensures
            match r {
                Some(s) => self@ == ValueView::Str(s@),
                None => !(self@ is Str),
            },
    {
        broadcast use value_view_cases;

        match self {
            Value::Str(s) => Some(s.as_str()),
            _ => None,
        }
    }

    pub fn as_int(&self) -> (r: Option<i64>)
        ensures
            match r {
                Some(n) => self@ == ValueView::Int(n),
                None => !(self@ is Int),
            },
    {
        broadcast use value_view_cases;

        match self {
            Value::Int(i) => Some(*i),
            _ => None,
        }
    }

    /// Is this a `List` whose items are all `Record`s (i.e. a table)?
    /// Empty lists count as (empty) tables.
    pub fn is_table(&self) -> (r: bool)
        ensures
            r == table(self@),
    {
        broadcast use value_view_cases;

        match self {
            Value::List(items) => {
                let mut i: usize = 0;
                while i < items.len()
                    invariant
                        i <= items@.len(),
                        self@ == ValueView::List(values_view(items@)),
                        forall|j: int| 0 <= j < i ==> #[trigger] values_view(items@)[j] is Record,
                    decreases items@.len() - i,
                {
                    let is_record = match &items[i] {
                        Value::Record(_) => true,
                        _ => false,
                    };
                    if !is_record {
                        proof {
                            assert(!(values_view(items@)[i as int] is Record));
                        }
                        return false;
                    }
                    i = i + 1;
                }
                true
            },
            _ => false,
        }
    }

    /// Ordering for comparisons. Numeric types compare across integers and
    /// floats; strings and bools compare within type; everything else is
    /// incomparable (`None`).
    pub fn partial_cmp_values(&self, other: &Value) -> (r: Option<Ordering>)
        ensures
            r == value_order(self@, other@),
    {
        broadcast use value_view_cases;

        match (self, other) {
            (Value::Int(a), Value::Int(b)) => Some(order_of_ints(*a, *b)),
            (Value::Float(a), Value::Float(b)) => float::order_of_floats(*a, *b),
            (Value::Int(a), Value::Float(b)) => float::order_of_floats(float::from_int(*a), *b),
            (Value::Float(a), Value::Int(b)) => float::order_of_floats(*a, float::from_int(*b)),
            (Value::Str(a), Value::Str(b)) => Some(text::order_of_texts(a.as_str(), b.as_str())),
            (Value::Bool(a), Value::Bool(b)) => Some(order_of_bools(*a, *b)),
            (Value::Null, Value::Null) => Some(Ordering::Equal),
            _ => None,
        }
    }

    fn class(&self) -> (r: u8)
        ensures
            r == sort_class(self@),
    {
        broadcast use value_view_cases;

        match self {
            Value::Int(_) => 0,
            Value::Float(_) => 0,
            Value::Str(_) => 1,
            Value::Bool(_) => 2,
            Value::Bytes(_) => 3,
            Value::List(_) => 4,
            Value::Record(_) => 5,
            Value::Null => 6,
        }
    }

    /// Ordering for sorting: total, so that a column of mixed types sorts.
    /// Numbers come first, then strings.
    pub fn total_cmp_values(&self, other: &Value) -> (r: Ordering)
        ensures
            r == sort_order(self@, other@),
    {
        broadcast use value_view_cases;

        let ca: u8 = self.class();
        let cb: u8 = other.class();
        if ca < cb {
            return Ordering::Less;
        }
        if ca > cb {
            return Ordering::Greater;
        }
        match (self, other) {
            (Value::Int(a), Value::Int(b)) => {
                proof {
                    integers_sort_exactly(*a, *b);
                }
                order_of_ints(*a, *b)
            },
            (Value::Float(a), Value::Float(b)) => sort_floats(*a, *b),
            (Value::Int(a), Value::Float(b)) => sort_mixed(*a, *b),
            (Value::Float(a), Value::Int(b)) => match sort_mixed(*b, *a) {
                Ordering::Less => Ordering::Greater,
                Ordering::Equal => Ordering::Equal,
                Ordering::Greater => Ordering::Less,
            },
            (Value::Str(a), Value::Str(b)) => text::order_of_texts(a.as_str(), b.as_str()),
            (Value::Bool(a), Value::Bool(b)) => order_of_bools(*a, *b),
            _ => Ordering::Equal,
        }
    }

    /// Equality of values, records in whatever order of their fields.
    pub fn same(&self, other: &Value) -> (r: bool)
        ensures
            r == same_value(self@, other@),
        decreases self@,
    {
        broadcast use value_view_cases;

        match (self, other) {
            (Value::Null, Value::Null) => true,
            (Value::Bool(x), Value::Bool(y)) => *x == *y,
            (Value::Int(x), Value::Int(y)) => *x == *y,
            (Value::Float(x), Value::Float(y)) => x.equals(*y),
            (Value::Str(x), Value::Str(y)) => text::same_text(x.as_str(), y.as_str()),
            (Value::Bytes(x), Value::Bytes(y)) => same_bytes(x, y),
            (Value::List(x), Value::List(y)) => {
                if x.len() != y.len() {
                    return false;
                }
                let mut i: usize = 0;
                while i < x.len()
                    invariant
                        i <= x@.len(),
                        x@.len() == y@.len(),
                        self matches Value::List(a) && a == x,
                        self@ == ValueView::List(values_view(x@)),
                        other@ == ValueView::List(values_view(y@)),
                        forall|j: int|
                            0 <= j < i ==> same_value(
                                #[trigger] values_view(x@)[j],
                                values_view(y@)[j],
                            ),
                    decreases x@.len() - i,
                {
                    proof {
                        assert(self@->List_0[i as int] == x@[i as int]@);
                    }
                    if !x[i].same(&y[i]) {
                        proof {
                            assert(!same_value(
                                values_view(x@)[i as int],
                                values_view(y@)[i as int],
                            ));
                        }
                        return false;
                    }
                    i = i + 1;
                }
                true
            },
            (Value::Record(x), Value::Record(y)) => {
                if x.len() != y.len() {
                    return false;
                }
                let mut i: usize = 0;
                while i < x.len()
                    invariant
                        i <= x@.len(),
                        x@.len() == y@.len(),
                        self matches Value::Record(a) && a == x,
                        self@ == ValueView::Record(x@),
                        other@ == ValueView::Record(y@),
                        forall|j: int|
                            0 <= j < i ==> (match lookup(y@, (#[trigger] x@[j]).0) {
                                Some(v) => same_value(x@[j].1, v),
                                None => false,
                            }),
                    decreases x@.len() - i,
                {
                    proof {
                        assert(decreases_to!(self@ => self@->Record_0[i as int].1));
                    }
                    let equal = match y.get(x.name(i).as_str()) {
                        Some(v) => x.at(i).same(v),
                        None => false,
                    };
                    if !equal {
                        return false;
                    }
                    i = i + 1;
                }
                true
            },
            _ => false,
        }
    }

    /// Are two values one and the same, field order and bit patterns of floats
    /// taken into account?
    pub fn identical(&self, other: &Value) -> (r: bool)
        ensures
            r == (self@ == other@),
        decreases self@,
    {
        broadcast use value_view_cases;

        match (self, other) {
            (Value::Null, Value::Null) => true,
            (Value::Bool(x), Value::Bool(y)) => *x == *y,
            (Value::Int(x), Value::Int(y)) => *x == *y,
            (Value::Float(x), Value::Float(y)) => *x == *y,
            (Value::Str(x), Value::Str(y)) => text::same_text(x.as_str(), y.as_str()),
            (Value::Bytes(x), Value::Bytes(y)) => same_bytes(x, y),
            (Value::List(x), Value::List(y)) => {
                if x.len() != y.len() {
                    proof {
                        assert(values_view(x@).len() != values_view(y@).len());
                    }
                    return false;
                }
                let mut i: usize = 0;
                while i < x.len()
                    invariant
                        i <= x@.len(),
                        x@.len() == y@.len(),
                        self matches Value::List(a) && a == x,
                        self@ == ValueView::List(values_view(x@)),
                        other@ == ValueView::List(values_view(y@)),
                        forall|j: int|
                            0 <= j < i ==> #[trigger] values_view(x@)[j] == values_view(y@)[j],
                    decreases x@.len() - i,
                {
                    proof {
                        assert(self@->List_0[i as int] == x@[i as int]@);
                    }
                    if !x[i].identical(&y[i]) {
                        proof {
                            assert(values_view(x@)[i as int] != values_view(y@)[i as int]);
                        }
                        return false;
                    }
                    i = i + 1;
                }
                proof {
                    assert(values_view(x@) =~= values_view(y@));
                }
                true
            },
            (Value::Record(x), Value::Record(y)) => {
                if x.len() != y.len() {
                    return false;
                }
                let mut i: usize = 0;
                while i < x.len()
                    invariant
                        i <= x@.len(),
                        x@.len() == y@.len(),
                        self matches Value::Record(a) && a == x,
                        self@ == ValueView::Record(x@),
                        other@ == ValueView::Record(y@),
                        forall|j: int| 0 <= j < i ==> #[trigger] x@[j] == y@[j],
                    decreases x@.len() - i,
                {
                    proof {
                        assert(decreases_to!(self@ => self@->Record_0[i as int].1));
                    }
                    if !text::same_text(x.name(i).as_str(), y.name(i).as_str()) {
                        proof {
                            assert(x@[i as int] != y@[i as int]);
                        }
                        return false;
                    }
                    if !x.at(i).identical(y.at(i)) {
                        proof {
                            assert(x@[i as int] != y@[i as int]);
                        }
                        return false;
                    }
                    i = i + 1;
                }
                proof {
                    assert(x@ =~= y@);
                }
                true
            },
            _ => false,
        }
    }

    /// Loose equality used by `==` and `!=` in the language: as `same`, and
    /// numeric types compare across integers and floats.
    pub fn loose_eq(&self, other: &Value) -> (r: bool)
        ensures
            r == loosely_equal(self@, other@),
    {
        broadcast use value_view_cases;

        match (self, other) {
            (Value::Int(a), Value::Float(b)) => float::from_int(*a).equals(*b),
            (Value::Float(a), Value::Int(b)) => a.equals(float::from_int(*b)),
            _ => self.same(other),
        }
    }

    /// Is there a float in this value that JSON cannot write?
    pub fn has_non_finite(&self) -> (r: bool)
        ensures
            r == non_finite_inside(self@),
        decreases self@,
    {
        broadcast use value_view_cases;

        match self {
            Value::Float(f) => !f.is_finite(),
            Value::List(items) => {
                let mut i: usize = 0;
                while i < items.len()
                    invariant
                        i <= items@.len(),
                        self matches Value::List(a) && a == items,
                        self@ == ValueView::List(values_view(items@)),
                        forall|j: int|
                            0 <= j < i ==> !non_finite_inside(#[trigger] values_view(items@)[j]),
                    decreases items@.len() - i,
                {
                    proof {
                        assert(self@->List_0[i as int] == items@[i as int]@);
                    }
                    if items[i].has_non_finite() {
                        proof {
                            assert(non_finite_inside(self@->List_0[i as int]));
                        }
                        return true;
                    }
                    i = i + 1;
                }
                false
            },
            Value::Record(fields) => {
                let mut i: usize = 0;
                while i < fields.len()
                    invariant
                        i <= fields@.len(),
                        self matches Value::Record(a) && a == fields,
                        self@ == ValueView::Record(fields@),
                        forall|j: int|
                            0 <= j < i ==> !non_finite_inside((#[trigger] fields@[j]).1),
                    decreases fields@.len() - i,
                {
                    proof {
                        assert(decreases_to!(self@ => self@->Record_0[i as int].1));
                    }
                    if fields.at(i).has_non_finite() {
                        proof {
                            assert(non_finite_inside(self@->Record_0[i as int].1));
                        }
                        return true;
                    }
                    i = i + 1;
                }
                false
            },
            _ => false,
        }
    }
}

impl PartialEq for Value {
    fn eq(&self, other: &Self) -> (r: bool) {
        self.same(other)
    }
}

impl vstd::std_specs::cmp::PartialEqSpecImpl for Value {
    open spec fn obeys_eq_spec() -> bool {
        true
    }

    open spec fn eq_spec(&self, other: &Self) -> bool {
        same_value(self@, other@)
    }
}

} // verus!
