//! The multiplexer's maps: ordered by insertion, keyed by id.

use crate::mux::model::{PaneView, SessionView, WindowView};
use crate::mux::{PaneShell, Session, Window};
use indexmap::IndexMap;
use vstd::prelude::*;

verus! {

#[verifier::external_type_specification]
#[verifier::external_body]
#[verifier::reject_recursive_types(K)]
#[verifier::reject_recursive_types(V)]
#[verifier::reject_recursive_types(S)]
pub struct ExIndexMap<K, V, S>(indexmap::IndexMap<K, V, S>);

/// The windows in a map, in their order.
pub uninterp spec fn window_entries(m: IndexMap<u32, Window>) -> Seq<(u32, WindowView)>;

/// The sessions in a map, in their order.
pub uninterp spec fn session_entries(m: IndexMap<u32, Session>) -> Seq<(u32, SessionView)>;

/// The panes in a map, in their order.
pub uninterp spec fn pane_entries(m: IndexMap<u32, PaneShell>) -> Seq<(u32, PaneView)>;

/// What the multiplexer keeps in maps.
pub trait Stored: View + Sized {
    /// What a map of them holds, in its order.
    spec fn entries(m: IndexMap<u32, Self>) -> Seq<(u32, <Self as View>::V)>;
}

impl Stored for Window {
    open spec fn entries(m: IndexMap<u32, Window>) -> Seq<(u32, WindowView)> {
        window_entries(m)
    }
}

impl Stored for Session {
    open spec fn entries(m: IndexMap<u32, Session>) -> Seq<(u32, SessionView)> {
        session_entries(m)
    }
}

impl Stored for PaneShell {
    open spec fn entries(m: IndexMap<u32, PaneShell>) -> Seq<(u32, PaneView)> {
        pane_entries(m)
    }
}

/// Where a key stands.
pub open spec fn key_at<V>(entries: Seq<(u32, V)>, k: u32) -> Option<int>
    decreases entries.len(),
{
    if entries.len() == 0 {
        None
    } else {
        match key_at(entries.drop_last(), k) {
            Some(i) => Some(i),
            None => if entries.last().0 == k {
                Some(entries.len() - 1)
            } else {
                None
            },
        }
    }
}

/// The entries after an insertion: a key that is there keeps its place, a new
/// one goes to the end.
pub open spec fn put<V>(entries: Seq<(u32, V)>, k: u32, v: V) -> Seq<(u32, V)> {
    match key_at(entries, k) {
        Some(i) => entries.update(i, (k, v)),
        None => entries.push((k, v)),
    }
}

/// The entries after a removal that keeps the order of the rest.
pub open spec fn taken<V>(entries: Seq<(u32, V)>, k: u32) -> Seq<(u32, V)> {
    match key_at(entries, k) {
        Some(i) => entries.remove(i),
        None => entries,
    }
}

pub open spec fn keys_of<V>(entries: Seq<(u32, V)>) -> Seq<u32> {
    entries.map_values(|e: (u32, V)| e.0)
}

pub open spec fn distinct_keys<V>(entries: Seq<(u32, V)>) -> bool {
    forall|i: int, j: int|
        0 <= i < j < entries.len() ==> (#[trigger] entries[i]).0 != (#[trigger] entries[j]).0
}

/// `key_at` finds the first entry of a key, and nothing only where there is
/// none.
pub proof fn key_at_is_first<V>(entries: Seq<(u32, V)>, k: u32)
    ensures
        match key_at(entries, k) {
            Some(i) => 0 <= i < entries.len() && entries[i].0 == k && forall|j: int|
                0 <= j < i ==> (#[trigger] entries[j]).0 != k,
            None => forall|j: int| 0 <= j < entries.len() ==> (#[trigger] entries[j]).0 != k,
        },
    decreases entries.len(),
{
    if entries.len() > 0 {
        let init = entries.drop_last();
        key_at_is_first(init, k);
        match key_at(init, k) {
            Some(i) => {
                assert(init[i] == entries[i]);
                assert forall|j: int| 0 <= j < i implies (#[trigger] entries[j]).0 != k by {
                    assert(init[j] == entries[j]);
                }
            },
            None => {
                assert forall|j: int| 0 <= j < entries.len() - 1 implies (
                #[trigger] entries[j]).0 != k by {
                    assert(init[j] == entries[j]);
                }
            },
        }
    }
}

pub proof fn key_at_index<V>(entries: Seq<(u32, V)>, i: int)
    requires
        distinct_keys(entries),
        0 <= i < entries.len(),
    ensures
        key_at(entries, entries[i].0) == Some(i),
{
    key_at_is_first(entries, entries[i].0);
}

/// An entry put behind those before it goes to the end.
pub proof fn the_next_goes_to_the_end<V>(entries: Seq<(u32, V)>, i: int)
    requires
        distinct_keys(entries),
        0 <= i < entries.len(),
    ensures
        put(entries.take(i), entries[i].0, entries[i].1) == entries.take(i + 1),
{
    let before = entries.take(i);
    key_at_is_first(before, entries[i].0);
    match key_at(before, entries[i].0) {
        Some(j) => {
            assert(before[j] == entries[j]);
        },
        None => {},
    }
    assert(before.push(entries[i]) =~= entries.take(i + 1));
}

/// `IndexMap::new`: a map of windows without entries.
#[verifier::external_body]
pub(crate) fn new_windows() -> (r: IndexMap<u32, Window>)
    ensures
        window_entries(r) == Seq::<(u32, WindowView)>::empty(),
{
    IndexMap::new()
}

/// `IndexMap::new`: a map of sessions without entries.
#[verifier::external_body]
pub(crate) fn new_sessions() -> (r: IndexMap<u32, Session>)
    ensures
        session_entries(r) == Seq::<(u32, SessionView)>::empty(),
{
    IndexMap::new()
}

/// `IndexMap::new`: a map of panes without entries.
#[verifier::external_body]
pub(crate) fn new_panes() -> (r: IndexMap<u32, PaneShell>)
    ensures
        pane_entries(r) == Seq::<(u32, PaneView)>::empty(),
{
    IndexMap::new()
}

/// `IndexMap::get`: the value stored for a key, if it is present.
#[verifier::external_body]
pub(crate) fn map_get<V: Stored>(m: &IndexMap<u32, V>, k: u32) -> (r: Option<&V>)
    ensures
        match r {
            Some(v) => match key_at(V::entries(*m), k) {
                Some(i) => v@ == V::entries(*m)[i].1,
                None => false,
            },
            None => key_at(V::entries(*m), k) is None,
        },
{
    m.get(&k)
}

/// `IndexMap::get_mut`: the value stored for a key, to be changed in its place.
#[verifier::external_body]
pub(crate) fn map_get_mut<V: Stored>(m: &mut IndexMap<u32, V>, k: u32) -> (r: Option<&mut V>)
    ensures
        match r {
            Some(v) => match key_at(V::entries(*old(m)), k) {
                Some(i) => (*v)@ == V::entries(*old(m))[i].1 && V::entries(*final(m))
                    == V::entries(*old(m)).update(i, (k, (*final(v))@)),
                None => false,
            },
            None => key_at(V::entries(*old(m)), k) is None && V::entries(*final(m)) == V::entries(
                *old(m),
            ),
        },
{
    m.get_mut(&k)
}

/// `IndexMap::insert`: a key that is present keeps its place in the order and
/// gets the new value; a new key goes to the end.
#[verifier::external_body]
pub(crate) fn map_insert<V: Stored>(m: &mut IndexMap<u32, V>, k: u32, v: V)
    ensures
        V::entries(*final(m)) == put(V::entries(*old(m)), k, v@),
{
    m.insert(k, v);
}

/// `IndexMap::shift_remove`: takes a key's entry out and keeps the order of the
/// others.
#[verifier::external_body]
pub(crate) fn map_remove<V: Stored>(m: &mut IndexMap<u32, V>, k: u32)
    ensures
        V::entries(*final(m)) == taken(V::entries(*old(m)), k),
{
    m.shift_remove(&k);
}

/// `IndexMap::keys`: the keys in their order, collected into a vector.
#[verifier::external_body]
pub(crate) fn map_keys<V: Stored>(m: &IndexMap<u32, V>) -> (r: Vec<u32>)
    ensures
        r@ == keys_of(V::entries(*m)),
{
    m.keys().copied().collect()
}

} // verus!
