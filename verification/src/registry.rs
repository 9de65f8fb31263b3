//! What flows between commands, and the registry that finds them by name.

use crate::ast;
use crate::ast::{Spanned, WordView};
use crate::builtins::Builtin;
use crate::error;
use crate::error::{ErrorKind, ErrorView, ShellError};
use crate::signature;
use crate::signature::{Signature, SignatureView};
use crate::text;
use crate::value::{Value, ValueView};
use vstd::prelude::*;

verus! {

broadcast use crate::value::value_view_cases;

/// What flows between pipeline stages.
#[derive(Debug)]
pub enum PipelineData {
    Empty,
    Value(Value),
    /// Text this shell formatted itself — help output, `table` — which the
    /// final renderer prints verbatim.
    ///
    /// Untrusted strings get their escape sequences stripped on the way to
    /// the terminal (a page-controlled value must not be able to clear the
    /// screen). Our own styled output would be destroyed by that same pass,
    /// so it is tagged here instead of being smuggled through as a `Str`.
    /// It still behaves as a string when piped onward.
    Rendered(String),
}

pub enum DataView {
    Empty,
    Value(ValueView),
    Rendered(Seq<char>),
}

impl View for PipelineData {
    type V = DataView;

    open spec fn view(&self) -> DataView {
        match self {
            PipelineData::Empty => DataView::Empty,
            PipelineData::Value(v) => DataView::Value(v@),
            PipelineData::Rendered(s) => DataView::Rendered(s@),
        }
    }
}

/// The views of a list of items.
pub open spec fn items_view(items: Seq<PipelineData>) -> Seq<DataView> {
    items.map_values(|d: PipelineData| d@)
}

impl DataView {
    /// The value that an item stands for.
    pub open spec fn value(self) -> ValueView {
        match self {
            DataView::Empty => ValueView::Null,
            DataView::Value(v) => v,
            DataView::Rendered(s) => ValueView::Str(s),
        }
    }
}

impl Clone for PipelineData {
    fn clone(&self) -> (r: Self)
        ensures
            r@ == self@,
    {
        match self {
            PipelineData::Empty => PipelineData::Empty,
            PipelineData::Value(v) => PipelineData::Value(v.clone()),
            PipelineData::Rendered(s) => PipelineData::Rendered(s.clone()),
        }
    }
}

impl PipelineData {
    pub fn into_value(self) -> (r: Value)
        ensures
            r@ == self@.value(),
    {
        match self {
            PipelineData::Empty => Value::Null,
            PipelineData::Value(v) => v,
            PipelineData::Rendered(s) => Value::Str(s),
        }
    }
}

/// Multiplexer mutations requested by `mux …` / `session …` builtins. The
/// engine host applies them; hosts without a multiplexer (the CLI) reject
/// them.
#[allow(inconsistent_fields)]
#[derive(Debug)]
pub enum MuxAction {
    SplitRight,
    SplitDown,
    WindowNew,
    WindowNext,
    WindowPrev,
    KillPane,
    Focus(String),
    Zoom,
    Hide,
    SessionNew { name: Option<String> },
    SessionList,
    SessionSwitch { name: String },
    SessionNext,
    SessionPrev,
}

#[allow(inconsistent_fields)]
pub enum MuxActionView {
    SplitRight,
    SplitDown,
    WindowNew,
    WindowNext,
    WindowPrev,
    KillPane,
    Focus(Seq<char>),
    Zoom,
    Hide,
    SessionNew { name: Option<Seq<char>> },
    SessionList,
    SessionSwitch { name: Seq<char> },
    SessionNext,
    SessionPrev,
}

impl Clone for MuxAction {
    fn clone(&self) -> (r: Self)
        ensures
            r@ == self@,
    {
        match self {
            MuxAction::SplitRight => MuxAction::SplitRight,
            MuxAction::SplitDown => MuxAction::SplitDown,
            MuxAction::WindowNew => MuxAction::WindowNew,
            MuxAction::WindowNext => MuxAction::WindowNext,
            MuxAction::WindowPrev => MuxAction::WindowPrev,
            MuxAction::KillPane => MuxAction::KillPane,
            MuxAction::Focus(word) => MuxAction::Focus(word.clone()),
            MuxAction::Zoom => MuxAction::Zoom,
            MuxAction::Hide => MuxAction::Hide,
            MuxAction::SessionNew { name: None } => MuxAction::SessionNew { name: None },
            MuxAction::SessionNew { name: Some(name) } => MuxAction::SessionNew {
                name: Some(name.clone()),
            },
            MuxAction::SessionList => MuxAction::SessionList,
            MuxAction::SessionSwitch { name } => MuxAction::SessionSwitch { name: name.clone() },
            MuxAction::SessionNext => MuxAction::SessionNext,
            MuxAction::SessionPrev => MuxAction::SessionPrev,
        }
    }
}

impl MuxAction {
    /// Do two actions ask the same?
    pub fn same(&self, other: &MuxAction) -> (r: bool)
        ensures
            r == (self@ == other@),
    {
        match (self, other) {
            (MuxAction::SplitRight, MuxAction::SplitRight) => true,
            (MuxAction::SplitDown, MuxAction::SplitDown) => true,
            (MuxAction::WindowNew, MuxAction::WindowNew) => true,
            (MuxAction::WindowNext, MuxAction::WindowNext) => true,
            (MuxAction::WindowPrev, MuxAction::WindowPrev) => true,
            (MuxAction::KillPane, MuxAction::KillPane) => true,
            (MuxAction::Focus(a), MuxAction::Focus(b)) => text::same_text(a.as_str(), b.as_str()),
            (MuxAction::Zoom, MuxAction::Zoom) => true,
            (MuxAction::Hide, MuxAction::Hide) => true,
            (
                MuxAction::SessionNew { name: Some(a) },
                MuxAction::SessionNew { name: Some(b) },
            ) => text::same_text(a.as_str(), b.as_str()),
            (MuxAction::SessionNew { name: None }, MuxAction::SessionNew { name: None }) => true,
            (MuxAction::SessionList, MuxAction::SessionList) => true,
            (
                MuxAction::SessionSwitch { name: a },
                MuxAction::SessionSwitch { name: b },
            ) => text::same_text(a.as_str(), b.as_str()),
            (MuxAction::SessionNext, MuxAction::SessionNext) => true,
            (MuxAction::SessionPrev, MuxAction::SessionPrev) => true,
            _ => false,
        }
    }
}

impl View for MuxAction {
    type V = MuxActionView;

    open spec fn view(&self) -> MuxActionView {
        match self {
            MuxAction::SplitRight => MuxActionView::SplitRight,
            MuxAction::SplitDown => MuxActionView::SplitDown,
            MuxAction::WindowNew => MuxActionView::WindowNew,
            MuxAction::WindowNext => MuxActionView::WindowNext,
            MuxAction::WindowPrev => MuxActionView::WindowPrev,
            MuxAction::KillPane => MuxActionView::KillPane,
            MuxAction::Focus(dir) => MuxActionView::Focus(dir@),
            MuxAction::Zoom => MuxActionView::Zoom,
            MuxAction::Hide => MuxActionView::Hide,
            MuxAction::SessionNew { name } => MuxActionView::SessionNew {
                name: error::opt_text(*name),
            },
            MuxAction::SessionList => MuxActionView::SessionList,
            MuxAction::SessionSwitch { name } => MuxActionView::SessionSwitch { name: name@ },
            MuxAction::SessionNext => MuxActionView::SessionNext,
            MuxAction::SessionPrev => MuxActionView::SessionPrev,
        }
    }
}

/// Which layer a variable comes from.
#[derive(Clone, Copy, Debug, PartialEq, Eq, Structural)]
pub enum VarOrigin {
    Host,
    Session,
}

/// A variable as a pane sees it.
#[derive(Debug)]
pub struct VisibleVar {
    pub name: String,
    pub origin: VarOrigin,
    pub value: Value,
}

pub struct VisibleView {
    pub name: Seq<char>,
    pub origin: VarOrigin,
    pub value: ValueView,
}

impl View for VisibleVar {
    type V = VisibleView;

    open spec fn view(&self) -> VisibleView {
        VisibleView { name: self.name@, origin: self.origin, value: self.value@ }
    }
}

pub open spec fn visibles_view(vars: Seq<VisibleVar>) -> Seq<VisibleView> {
    vars.map_values(|v: VisibleVar| v@)
}

impl Clone for VisibleVar {
    fn clone(&self) -> (r: Self)
        ensures
            r@ == self@,
    {
        VisibleVar { name: self.name.clone(), origin: self.origin, value: self.value.clone() }
    }
}

#[derive(Clone, Copy, Debug, PartialEq, Eq, Structural)]
pub enum CmdOrigin {
    Builtin,
    External,
}

/// What runs when a command is called: one of the shell's own, or one that the
/// host keeps under a number.
#[derive(Clone, Copy, Debug, PartialEq, Eq, Structural)]
pub enum Command {
    Builtin(Builtin),
    External(u64),
}

impl Command {
    pub fn origin(&self) -> (r: CmdOrigin)
        ensures
            r == origin_of(*self),
    {
        match self {
            Command::Builtin(_) => CmdOrigin::Builtin,
            Command::External(_) => CmdOrigin::External,
        }
    }
}

pub open spec fn origin_of(command: Command) -> CmdOrigin {
    match command {
        Command::Builtin(_) => CmdOrigin::Builtin,
        Command::External(_) => CmdOrigin::External,
    }
}

#[derive(Clone, Copy, Debug, PartialEq, Eq, Structural)]
pub enum RegisterOutcome {
    Added,
    /// An earlier external registration with the same name was replaced.
    Replaced,
}

#[derive(Debug)]
pub struct Entry {
    pub signature: Signature,
    pub command: Command,
}

pub struct EntryView {
    pub signature: SignatureView,
    pub command: Command,
}

impl View for Entry {
    type V = EntryView;

    open spec fn view(&self) -> EntryView {
        EntryView { signature: self.signature@, command: self.command }
    }
}

/// Keyed by full (possibly multi-word) name, e.g. `"str upcase"`. Lookup
/// tries the longest bareword prefix, so multi-word names are the subcommand
/// mechanism.
#[derive(Debug)]
pub struct CommandRegistry {
    pub entries: Vec<Entry>,
}

pub type EntrySeq = Seq<EntryView>;

impl View for CommandRegistry {
    type V = EntrySeq;

    open spec fn view(&self) -> EntrySeq {
        self.entries@.map_values(|e: Entry| e@)
    }
}

/// No two commands share a name.
pub open spec fn distinct_names(entries: EntrySeq) -> bool {
    forall|i: int, j: int|
        0 <= i < j < entries.len() ==> #[trigger] entries[i].signature.name
            != #[trigger] entries[j].signature.name
}

/// Where the command of a name stands.
pub open spec fn named(entries: EntrySeq, name: Seq<char>) -> Option<int>
    decreases entries.len(),
{
    if entries.len() == 0 {
        None
    } else {
        match named(entries.drop_last(), name) {
            Some(i) => Some(i),
            None => if entries.last().signature.name == name {
                Some(entries.len() - 1)
            } else {
                None
            },
        }
    }
}

/// `named` finds the first command of the name, and nothing only where there
/// is none.
pub proof fn named_is_first(entries: EntrySeq, name: Seq<char>)
    ensures
        match named(entries, name) {
            Some(i) => 0 <= i < entries.len() && entries[i].signature.name == name && forall|k: int|
                0 <= k < i ==> #[trigger] entries[k].signature.name != name,
            None => forall|k: int|
                0 <= k < entries.len() ==> #[trigger] entries[k].signature.name != name,
        },
    decreases entries.len(),
{
    if entries.len() > 0 {
        named_is_first(entries.drop_last(), name);
        match named(entries.drop_last(), name) {
            Some(i) => {
                assert(entries.drop_last()[i] == entries[i]);
                assert forall|k: int| 0 <= k < i implies #[trigger] entries[k].signature.name
                    != name by {
                    assert(entries.drop_last()[k] == entries[k]);
                }
            },
            None => {
                assert forall|k: int| 0 <= k < entries.len() - 1 implies #[trigger] entries[k].signature.name
                    != name by {
                    assert(entries.drop_last()[k] == entries[k]);
                }
            },
        }
    }
}

proof fn named_at(entries: EntrySeq, name: Seq<char>, i: int)
    requires
        distinct_names(entries),
        0 <= i < entries.len(),
        entries[i].signature.name == name,
    ensures
        named(entries, name) == Some(i),
{
    named_is_first(entries, name);
}

/// Is a name taken by one of the shell's own commands?
pub open spec fn builtin_named(entries: EntrySeq, name: Seq<char>) -> bool {
    match named(entries, name) {
        Some(i) => origin_of(entries[i].command) == CmdOrigin::Builtin,
        None => false,
    }
}

/// The registry after an external registration.
pub open spec fn with_external(entries: EntrySeq, entry: EntryView) -> EntrySeq {
    match named(entries, entry.signature.name) {
        Some(i) => if origin_of(entries[i].command) == CmdOrigin::Builtin {
            entries
        } else {
            entries.update(i, entry)
        },
        None => entries.push(entry),
    }
}

/// The registry after an external command was dropped.
pub open spec fn without_external(entries: EntrySeq, name: Seq<char>) -> EntrySeq {
    match named(entries, name) {
        Some(i) => if origin_of(entries[i].command) == CmdOrigin::Builtin {
            entries
        } else {
            entries.remove(i)
        },
        None => entries,
    }
}

/// Registering and dropping external commands keeps names distinct, and no
/// builtin is ever replaced or removed by it.
pub proof fn builtins_are_permanent(
    entries: EntrySeq,
    entry: EntryView,
    dropped: Seq<char>,
    builtin: Seq<char>,
)
    requires
        distinct_names(entries),
        builtin_named(entries, builtin),
    ensures
        distinct_names(with_external(entries, entry)),
        distinct_names(without_external(entries, dropped)),
        ({
            let was = entries[named(entries, builtin)->0];
            let added = with_external(entries, entry);
            let less = without_external(entries, dropped);
            &&& named(added, builtin) is Some
            &&& added[named(added, builtin)->0] == was
            &&& named(less, builtin) is Some
            &&& less[named(less, builtin)->0] == was
        }),
{
    external_keeps_names_distinct(entries, entry, dropped);
    named_is_first(entries, builtin);
    named_is_first(entries, entry.signature.name);
    named_is_first(entries, dropped);
    let i = named(entries, builtin)->0;
    let added = with_external(entries, entry);
    assert(added[i] == entries[i]);
    named_at(added, builtin, i);
    let less = without_external(entries, dropped);
    let j = match named(entries, dropped) {
        Some(k) => if origin_of(entries[k].command) != CmdOrigin::Builtin && k < i {
            i - 1
        } else {
            i
        },
        None => i,
    };
    assert(less[j] == entries[i]);
    named_at(less, builtin, j);
}

proof fn external_keeps_names_distinct(entries: EntrySeq, entry: EntryView, dropped: Seq<char>)
    requires
        distinct_names(entries),
    ensures
        distinct_names(with_external(entries, entry)),
        distinct_names(without_external(entries, dropped)),
{
    named_is_first(entries, entry.signature.name);
    named_is_first(entries, dropped);
    let added = with_external(entries, entry);
    assert forall|i: int, j: int| 0 <= i < j < added.len() implies #[trigger] added[i].signature.name
        != #[trigger] added[j].signature.name by {
        if i < entries.len() {
            assert(added[i].signature.name == entries[i].signature.name);
        }
        if j < entries.len() {
            assert(added[j].signature.name == entries[j].signature.name);
        }
    }
    let less = without_external(entries, dropped);
    assert forall|i: int, j: int| 0 <= i < j < less.len() implies #[trigger] less[i].signature.name
        != #[trigger] less[j].signature.name by {
        match named(entries, dropped) {
            Some(k) => {
                if origin_of(entries[k].command) != CmdOrigin::Builtin {
                    let a = if i < k {
                        i
                    } else {
                        i + 1
                    };
                    let b = if j < k {
                        j
                    } else {
                        j + 1
                    };
                    assert(less[i] == entries[a]);
                    assert(less[j] == entries[b]);
                }
            },
            None => {},
        }
    }
}

/// The longest of the first `n` prefixes of `words` that names a command:
/// where the command stands, and how many words its name takes.
pub open spec fn longest_prefix(entries: EntrySeq, words: Seq<Seq<char>>, n: int) -> Option<
    (int, int),
>
    decreases n,
{
    if n <= 0 {
        None
    } else {
        match named(entries, text::joined(words.take(n), " "@)) {
            Some(i) => Some((i, n)),
            None => longest_prefix(entries, words, n - 1),
        }
    }
}

/// A prefix that is found names a command, and no longer prefix does.
pub proof fn longest_prefix_wins(entries: EntrySeq, words: Seq<Seq<char>>, n: int)
    requires
        0 <= n <= words.len(),
    ensures
        match longest_prefix(entries, words, n) {
            Some((i, k)) => 1 <= k <= n && named(entries, text::joined(words.take(k), " "@)) == Some(
                i,
            ) && forall|m: int|
                k < m <= n ==> named(entries, text::joined(#[trigger] words.take(m), " "@)) is None,
            None => forall|m: int|
                1 <= m <= n ==> named(entries, text::joined(#[trigger] words.take(m), " "@)) is None,
        },
    decreases n,
{
    if n > 0 {
        longest_prefix_wins(entries, words, n - 1);
    }
}

/// A name and what it is for.
pub type Listing = (Seq<char>, Seq<char>);

/// The commands whose names start with `head`, in the order of registration.
pub open spec fn listed(entries: EntrySeq, head: Seq<char>) -> Seq<Listing>
    decreases entries.len(),
{
    if entries.len() == 0 {
        Seq::empty()
    } else {
        let rest = listed(entries.drop_last(), head);
        let last = entries.last().signature;
        if text::starts_with(last.name, head) {
            rest.push((last.name, last.summary))
        } else {
            rest
        }
    }
}

/// A sorted list with one more entry at its place: behind the entries that do
/// not come after it.
pub open spec fn placed_by_name(sorted: Seq<Listing>, x: Listing) -> Seq<Listing>
    decreases sorted.len(),
{
    if sorted.len() > 0 && text::text_after(sorted.last().0, x.0) {
        placed_by_name(sorted.drop_last(), x).push(sorted.last())
    } else {
        sorted.push(x)
    }
}

/// A list sorted by name.
pub open spec fn by_name(list: Seq<Listing>) -> Seq<Listing>
    decreases list.len(),
{
    if list.len() == 0 {
        Seq::empty()
    } else {
        placed_by_name(by_name(list.drop_last()), list.last())
    }
}

pub open spec fn sorted_by_name(list: Seq<Listing>) -> bool {
    forall|i: int, j: int|
        0 <= i < j < list.len() ==> !text::text_after((#[trigger] list[i]).0, (#[trigger] list[j]).0)
}

proof fn placing_keeps_order(sorted: Seq<Listing>, x: Listing)
    requires
        sorted_by_name(sorted),
    ensures
        sorted_by_name(placed_by_name(sorted, x)),
        placed_by_name(sorted, x).to_multiset() == sorted.to_multiset().insert(x),
        placed_by_name(sorted, x).len() == sorted.len() + 1,
        forall|i: int|
            0 <= i <= sorted.len() ==> #[trigger] placed_by_name(sorted, x)[i] == x
                || sorted.contains(placed_by_name(sorted, x)[i]),
    decreases sorted.len(),
{
    broadcast use vstd::seq_lib::group_to_multiset_ensures;

    let out = placed_by_name(sorted, x);
    if sorted.len() > 0 && text::text_after(sorted.last().0, x.0) {
        let init = sorted.drop_last();
        let last = sorted.last();
        placing_keeps_order(init, x);
        let inner = placed_by_name(init, x);
        assert(sorted =~= init.push(last));
        assert forall|i: int, j: int| 0 <= i < j < out.len() implies !text::text_after(
            (#[trigger] out[i]).0,
            (#[trigger] out[j]).0,
        ) by {
            if j == out.len() - 1 {
                assert(out[i] == inner[i]);
                if inner[i] == x {
                    text::text_after_is_an_order(x.0, last.0, x.0);
                } else {
                    let k = choose|k: int| 0 <= k < init.len() && init[k] == inner[i];
                    assert(sorted[k] == inner[i]);
                    assert(sorted[sorted.len() - 1] == last);
                }
            } else {
                assert(out[i] == inner[i] && out[j] == inner[j]);
            }
        }
        assert forall|i: int| 0 <= i <= sorted.len() implies #[trigger] out[i] == x || sorted.contains(
            out[i],
        ) by {
            if i < sorted.len() {
                assert(out[i] == inner[i]);
                if inner[i] != x {
                    let k = choose|k: int| 0 <= k < init.len() && init[k] == inner[i];
                    assert(sorted[k] == inner[i]);
                }
            } else {
                assert(sorted[sorted.len() - 1] == out[i]);
            }
        }
        assert(out.to_multiset() =~= sorted.to_multiset().insert(x));
    } else {
        assert forall|i: int, j: int| 0 <= i < j < out.len() implies !text::text_after(
            (#[trigger] out[i]).0,
            (#[trigger] out[j]).0,
        ) by {
            if j == out.len() - 1 {
                assert(out[i] == sorted[i]);
                let last = sorted.last();
                text::text_after_is_an_order(sorted[i].0, last.0, x.0);
                text::text_after_is_an_order(last.0, last.0, last.0);
                assert(i < sorted.len() - 1 ==> !text::text_after(
                    sorted[i].0,
                    sorted[sorted.len() - 1].0,
                ));
            } else {
                assert(out[i] == sorted[i] && out[j] == sorted[j]);
            }
        }
        assert forall|i: int| 0 <= i <= sorted.len() implies #[trigger] out[i] == x || sorted.contains(
            out[i],
        ) by {
            if i < sorted.len() {
                assert(sorted[i] == out[i]);
            }
        }
    }
}

/// Sorting puts the same entries into the order of their names.
pub proof fn by_name_sorts(list: Seq<Listing>)
    ensures
        sorted_by_name(by_name(list)),
        by_name(list).to_multiset() == list.to_multiset(),
    decreases list.len(),
{
    broadcast use vstd::seq_lib::group_to_multiset_ensures;

    if list.len() > 0 {
        by_name_sorts(list.drop_last());
        placing_keeps_order(by_name(list.drop_last()), list.last());
        assert(list =~= list.drop_last().push(list.last()));
    } else {
        assert(by_name(list) =~= list);
    }
}

proof fn placed_is_inserted(sorted: Seq<Listing>, x: Listing, p: int)
    requires
        0 <= p <= sorted.len(),
        forall|k: int| p <= k < sorted.len() ==> text::text_after((#[trigger] sorted[k]).0, x.0),
        p > 0 ==> !text::text_after(sorted[p - 1].0, x.0),
    ensures
        placed_by_name(sorted, x) == sorted.insert(p, x),
    decreases sorted.len(),
{
    if sorted.len() > p {
        placed_is_inserted(sorted.drop_last(), x, p);
        assert(sorted.insert(p, x) =~= sorted.drop_last().insert(p, x).push(sorted.last()));
    } else {
        assert(sorted.insert(p, x) =~= sorted.push(x));
    }
}

fn place_by_name(sorted: &mut Vec<(String, String)>, x: (String, String))
    ensures
        signature::subs_view(final(sorted)@) == placed_by_name(
            signature::subs_view(old(sorted)@),
            (x.0@, x.1@),
        ),
{
    let ghost was = signature::subs_view(sorted@);
    let ghost xv = (x.0@, x.1@);
    let mut p: usize = sorted.len();
    while p > 0 && text::is_after(sorted[p - 1].0.as_str(), x.0.as_str())
        invariant
            p <= sorted@.len(),
            was == signature::subs_view(sorted@),
            xv == (x.0@, x.1@),
            forall|k: int| p <= k < was.len() ==> text::text_after((#[trigger] was[k]).0, xv.0),
        decreases p,
    {
        p = p - 1;
    }
    proof {
        placed_is_inserted(was, xv, p as int);
    }
    sorted.insert(p, x);
    proof {
        assert(signature::subs_view(sorted@) =~= was.insert(p as int, xv));
    }
}

/// The commands under a group, sorted by name.
pub open spec fn members(entries: EntrySeq, group: Seq<char>) -> Seq<Listing> {
    by_name(listed(entries, group + " "@))
}

/// The names of all commands.
pub open spec fn entry_names(entries: EntrySeq) -> Seq<Seq<char>> {
    entries.map_values(|e: EntryView| e.signature.name)
}

/// The word that follows a group's name in the name of a member.
pub open spec fn tail_word(group: Seq<char>, name: Seq<char>) -> Seq<char> {
    let from = group.len() as int + 1;
    if from <= name.len() {
        name.subrange(from, text::run_without(name, ' ', from))
    } else {
        Seq::empty()
    }
}

pub open spec fn tail_words(group: Seq<char>, subs: Seq<Listing>) -> Seq<Seq<char>> {
    subs.map_values(|s: Listing| tail_word(group, s.0))
}

pub open spec fn word_nodes(words: Seq<WordView>) -> Seq<Seq<char>> {
    words.map_values(|w: WordView| w.node)
}

/// A known group with an unknown word after it.
pub open spec fn subcommand_error(
    group: Seq<char>,
    subs: Seq<Listing>,
    words: Seq<WordView>,
    take: int,
) -> ErrorView {
    let attempted = words[take];
    ErrorView::at(
        ErrorKind::UnknownCommand,
        "`"@ + group + "` has no subcommand `"@ + attempted.node + "`"@,
        error::merged(words[0].span, attempted.span),
    ).helped(
        match error::suggestion(attempted.node, tail_words(group, subs)) {
            Some(s) => "did you mean `"@ + group + " "@ + s + "`?"@,
            None => "run `"@ + group + "` to list its subcommands"@,
        },
    )
}

/// The diagnosis against the longest group among the first `take` words.
pub open spec fn wrong_subcommand(entries: EntrySeq, words: Seq<WordView>, take: int) -> Option<
    ErrorView,
>
    decreases take,
{
    if take <= 0 {
        None
    } else {
        let group = text::joined(word_nodes(words).take(take), " "@);
        let subs = members(entries, group);
        if subs.len() == 0 {
            wrong_subcommand(entries, words, take - 1)
        } else {
            Some(subcommand_error(group, subs, words, take))
        }
    }
}

/// The diagnosis that names a command close to the first `take` words, or to
/// fewer of them.
pub open spec fn near_miss(entries: EntrySeq, words: Seq<WordView>, take: int) -> Option<ErrorView>
    decreases take,
{
    if take <= 0 {
        None
    } else {
        let target = text::joined(word_nodes(words).take(take), " "@);
        match error::suggestion(target, entry_names(entries)) {
            Some(s) => Some(
                ErrorView::at(
                    ErrorKind::UnknownCommand,
                    "unknown command `"@ + target + "`"@,
                    error::merged(words[0].span, words[take - 1].span),
                ).helped("did you mean `"@ + s + "`?"@),
            ),
            None => near_miss(entries, words, take - 1),
        }
    }
}

/// The diagnosis of a call that names no command.
pub open spec fn unknown_command(entries: EntrySeq, words: Seq<WordView>) -> ErrorView {
    match wrong_subcommand(entries, words, words.len() - 1) {
        Some(e) => e,
        None => match near_miss(
            entries,
            words,
            if words.len() < 3 {
                words.len() as int
            } else {
                3
            },
        ) {
            Some(e) => e,
            None => ErrorView::at(
                ErrorKind::UnknownCommand,
                "unknown command `"@ + words[0].node + "`"@,
                words[0].span,
            ).helped("run `help` to list commands"@),
        },
    }
}

pub fn node_texts(words: &Vec<Spanned<String>>) -> (r: Vec<String>)
    ensures
        text::texts(r@) == word_nodes(ast::words_view(words@)),
        r@.len() == words@.len(),
{
    let mut out: Vec<String> = Vec::new();
    let mut i: usize = 0;
    while i < words.len()
        invariant
            i <= words@.len(),
            out@.len() == i,
            forall|k: int| 0 <= k < i ==> (#[trigger] out@[k])@ == words@[k].node@,
        decreases words@.len() - i,
    {
        out.push(words[i].node.clone());
        i = i + 1;
    }
    proof {
        assert(text::texts(out@) =~= word_nodes(ast::words_view(words@)));
    }
    out
}

fn tail_texts(group: &str, subs: &Vec<(String, String)>) -> (r: Vec<String>)
    ensures
        text::texts(r@) == tail_words(group@, signature::subs_view(subs@)),
{
    let prefix = text::to_chars(group);
    let mut out: Vec<String> = Vec::new();
    let mut i: usize = 0;
    while i < subs.len()
        invariant
            prefix@ == group@,
            i <= subs@.len(),
            out@.len() == i,
            forall|k: int|
                0 <= k < i ==> (#[trigger] out@[k])@ == tail_word(group@, subs@[k].0@),
        decreases subs@.len() - i,
    {
        let name = text::to_chars(subs[i].0.as_str());
        let skip: usize = prefix.len();
        if skip < name.len() {
            let from: usize = skip + 1;
            let to: usize = text::end_of_run(&name, ' ', from);
            out.push(text::slice_text(&name, from, to));
        } else {
            out.push(String::new());
        }
        i = i + 1;
    }
    proof {
        assert(text::texts(out@) =~= tail_words(group@, signature::subs_view(subs@)));
    }
    out
}

impl Default for CommandRegistry {
    fn default() -> (r: Self)
        ensures
            r@ == EntrySeq::empty(),
    {
        CommandRegistry::new()
    }
}

impl CommandRegistry {
    pub fn new() -> (r: Self)
        ensures
            r@ == EntrySeq::empty(),
    {
        let r = CommandRegistry { entries: Vec::new() };
        proof {
            assert(r@ =~= EntrySeq::empty());
        }
        r
    }

    /// Where the command of a name stands.
    pub fn find(&self, name: &str) -> (r: Option<usize>)
        ensures
            match r {
                Some(i) => i < self.entries@.len() && named(self@, name@) == Some(i as int),
                None => named(self@, name@) is None,
            },
    {
        let mut i: usize = 0;
        while i < self.entries.len()
            invariant
                i <= self.entries@.len(),
                forall|k: int| 0 <= k < i ==> (#[trigger] self@[k]).signature.name != name@,
            decreases self.entries@.len() - i,
        {
            if text::same_text(self.entries[i].signature.name.as_str(), name) {
                proof {
                    named_is_first(self@, name@);
                    assert(self@[i as int].signature.name == name@);
                }
                return Some(i);
            }
            i = i + 1;
        }
        proof {
            named_is_first(self@, name@);
        }
        None
    }

    pub fn register_builtin(&mut self, signature: Signature, command: Builtin)
        requires
            named(old(self)@, signature@.name) is None,
        ensures
            final(self)@ == old(self)@.push(
                EntryView { signature: signature@, command: Command::Builtin(command) },
            ),
            distinct_names(old(self)@) ==> distinct_names(final(self)@),
    {
        let ghost was = self@;
        proof {
            named_is_first(was, signature@.name);
        }
        self.entries.push(Entry { signature, command: Command::Builtin(command) });
        proof {
            assert(self@ =~= was.push(
                EntryView { signature: signature@, command: Command::Builtin(command) },
            ));
        }
    }

    /// Register an external (TS) command. Errors if the name is owned by a
    /// builtin. Replacing a previous external registration is allowed (the
    /// deliberate HMR behavior) and reported via `Replaced`.
    pub fn register_external(&mut self, signature: Signature, handle: u64) -> (r: Result<
        RegisterOutcome,
        ShellError,
    >)
        ensures
            final(self)@ == with_external(
                old(self)@,
                EntryView { signature: signature@, command: Command::External(handle) },
            ),
            distinct_names(old(self)@) ==> distinct_names(final(self)@),
            match r {
                Ok(outcome) => !builtin_named(old(self)@, signature@.name) && (outcome
                    == RegisterOutcome::Replaced <==> named(old(self)@, signature@.name) is Some),
                Err(e) => builtin_named(old(self)@, signature@.name) && e@ == ErrorView::bare(
                    ErrorKind::Runtime,
                    "cannot register `"@ + signature@.name + "`: it is a built-in command"@,
                ),
            },
    {
        let ghost was = self@;
        let ghost entry = EntryView { signature: signature@, command: Command::External(handle) };
        proof {
            if distinct_names(was) {
                external_keeps_names_distinct(was, entry, entry.signature.name);
            }
        }
        match self.find(signature.name.as_str()) {
            Some(i) => {
                match self.entries[i].command {
                    Command::Builtin(_) => {
                        proof {
                            assert(was[i as int] == self.entries@[i as int]@);
                        }
                        let msg = text::around(
                            "cannot register `",
                            signature.name.as_str(),
                            "`: it is a built-in command",
                        );
                        Err(ShellError::new(ErrorKind::Runtime, msg.as_str()))
                    },
                    Command::External(_) => {
                        proof {
                            assert(was[i as int] == self.entries@[i as int]@);
                        }
                        self.entries.set(
                            i,
                            Entry { signature, command: Command::External(handle) },
                        );
                        proof {
                            assert(self@ =~= was.update(i as int, entry));
                        }
                        Ok(RegisterOutcome::Replaced)
                    },
                }
            },
            None => {
                self.entries.push(Entry { signature, command: Command::External(handle) });
                proof {
                    assert(self@ =~= was.push(entry));
                }
                Ok(RegisterOutcome::Added)
            },
        }
    }

    /// Remove an external command. Builtins are not removable.
    pub fn unregister_external(&mut self, name: &str) -> (r: bool)
        ensures
            final(self)@ == without_external(old(self)@, name@),
            distinct_names(old(self)@) ==> distinct_names(final(self)@),
            r == (named(old(self)@, name@) is Some && !builtin_named(old(self)@, name@)),
    {
        let ghost was = self@;
        proof {
            if distinct_names(was) && was.len() > 0 {
                external_keeps_names_distinct(was, was[0], name@);
            }
            named_is_first(was, name@);
        }
        match self.find(name) {
            Some(i) => {
                proof {
                    assert(was[i as int] == self.entries@[i as int]@);
                }
                match self.entries[i].command {
                    Command::Builtin(_) => false,
                    Command::External(_) => {
                        self.entries.remove(i);
                        proof {
                            assert(self@ =~= was.remove(i as int));
                        }
                        true
                    },
                }
            },
            None => false,
        }
    }

    /// Longest-prefix lookup over the call's leading barewords. Returns the
    /// command and how many words its name consumed.
    pub fn lookup(&self, words: &Vec<String>) -> (r: Option<(&Entry, usize)>)
        ensures
            match r {
                Some((e, n)) => match longest_prefix(
                    self@,
                    text::texts(words@),
                    words@.len() as int,
                ) {
                    Some((i, k)) => n == k && e@ == self@[i],
                    None => false,
                },
                None => longest_prefix(self@, text::texts(words@), words@.len() as int) is None,
            },
    {
        let mut take: usize = words.len();
        while take > 0
            invariant
                take <= words@.len(),
                longest_prefix(self@, text::texts(words@), words@.len() as int) == longest_prefix(
                    self@,
                    text::texts(words@),
                    take as int,
                ),
            decreases take,
        {
            let key = text::join(words, take, " ");
            match self.find(key.as_str()) {
                Some(i) => {
                    proof {
                        assert(self@[i as int] == self.entries@[i as int]@);
                    }
                    return Some((&self.entries[i], take));
                },
                None => {},
            }
            take = take - 1;
        }
        None
    }

    fn list(&self, head: &str) -> (r: Vec<(String, String)>)
        ensures
            signature::subs_view(r@) == by_name(listed(self@, head@)),
    {
        let ghost all = self@;
        let mut out: Vec<(String, String)> = Vec::new();
        let mut i: usize = 0;
        proof {
            assert(signature::subs_view(out@) =~= by_name(listed(all.take(0), head@)));
        }
        while i < self.entries.len()
            invariant
                i <= self.entries@.len(),
                all == self@,
                signature::subs_view(out@) == by_name(listed(all.take(i as int), head@)),
            decreases self.entries@.len() - i,
        {
            let sig = &self.entries[i].signature;
            proof {
                assert(all.take(i + 1).drop_last() =~= all.take(i as int));
                assert(all.take(i + 1).last().signature == sig@);
            }
            if text::has_prefix(sig.name.as_str(), head) {
                let ghost before = listed(all.take(i as int), head@);
                place_by_name(&mut out, (sig.name.clone(), sig.summary.clone()));
                proof {
                    assert(before.push((sig@.name, sig@.summary)).drop_last() =~= before);
                }
            }
            i = i + 1;
        }
        proof {
            assert(all.take(all.len() as int) =~= all);
        }
        out
    }

    /// Registered commands whose name starts with `prefix` plus a space,
    /// as (full name, summary), sorted. Empty when `prefix` names no group.
    pub fn subcommands(&self, prefix: &str) -> (r: Vec<(String, String)>)
        ensures
            signature::subs_view(r@) == members(self@, prefix@),
    {
        let mut head = prefix.to_owned();
        head.append(" ");
        self.list(head.as_str())
    }

    /// Rendered help when `words` names a group rather than a command —
    /// what `task`, `mux --help`, and `mux window` print.
    ///
    /// Requires the *whole* head to be the group: `task nope` is a typo to
    /// diagnose, not a reason to dump the group page. Only consulted after
    /// `lookup` fails, so a group that later gains a command of its own name
    /// keeps working — the command wins.
    pub fn group_help(&self, words: &Vec<String>) -> (r: Option<String>)
        ensures
            error::opt_text(r) == group_page(self@, text::texts(words@)),
    {
        let prefix = text::join(words, words.len(), " ");
        proof {
            assert(text::texts(words@).take(words@.len() as int) =~= text::texts(words@));
        }
        let subs = self.subcommands(prefix.as_str());
        if subs.len() == 0 {
            None
        } else {
            Some(signature::render_group_help(prefix.as_str(), &subs))
        }
    }

    /// Every command as (name, summary), sorted by name.
    pub fn overview(&self) -> (r: Vec<(String, String)>)
        ensures
            signature::subs_view(r@) == by_name(listed(self@, Seq::empty())),
    {
        let head = String::new();
        self.list(head.as_str())
    }

    pub fn names(&self) -> (r: Vec<String>)
        ensures
            text::texts(r@) == by_name(listed(self@, Seq::empty())).map_values(|s: Listing| s.0),
    {
        let list = self.overview();
        let mut out: Vec<String> = Vec::new();
        let mut i: usize = 0;
        while i < list.len()
            invariant
                i <= list@.len(),
                out@.len() == i,
                forall|k: int| 0 <= k < i ==> (#[trigger] out@[k])@ == list@[k].0@,
            decreases list@.len() - i,
        {
            out.push(list[i].0.clone());
            i = i + 1;
        }
        proof {
            assert(text::texts(out@) =~= signature::subs_view(list@).map_values(
                |s: Listing| s.0,
            ));
        }
        out
    }

    pub fn get(&self, name: &str) -> (r: Option<&Entry>)
        ensures
            match r {
                Some(e) => named(self@, name@) is Some && e@ == self@[named(self@, name@)->0],
                None => named(self@, name@) is None,
            },
    {
        match self.find(name) {
            Some(i) => {
                proof {
                    assert(self@[i as int] == self.entries@[i as int]@);
                }
                Some(&self.entries[i])
            },
            None => None,
        }
    }

    fn name_list(&self) -> (r: Vec<String>)
        ensures
            text::texts(r@) == entry_names(self@),
    {
        let mut out: Vec<String> = Vec::new();
        let mut i: usize = 0;
        while i < self.entries.len()
            invariant
                i <= self.entries@.len(),
                out@.len() == i,
                forall|k: int|
                    0 <= k < i ==> (#[trigger] out@[k])@ == self.entries@[k].signature.name@,
            decreases self.entries@.len() - i,
        {
            out.push(self.entries[i].signature.name.clone());
            i = i + 1;
        }
        proof {
            assert(text::texts(out@) =~= entry_names(self@));
        }
        out
    }

    /// A known group with an unknown word after it is a wrong-subcommand
    /// mistake. Diagnosing it against its siblings beats the global
    /// did-you-mean, which used to answer `task lst` with something from
    /// the other end of the registry.
    fn diagnose_subcommand(&self, words: &Vec<Spanned<String>>, names: &Vec<String>) -> (r: Option<
        ShellError,
    >)
        requires
            words@.len() >= 1,
            names@.len() == words@.len(),
            text::texts(names@) == word_nodes(ast::words_view(words@)),
        ensures
            match r {
                Some(e) => wrong_subcommand(self@, ast::words_view(words@), words@.len() - 1)
                    == Some(e@),
                None => wrong_subcommand(self@, ast::words_view(words@), words@.len() - 1) is None,
            },
    {
        let ghost wv = ast::words_view(words@);
        let mut take: usize = words.len() - 1;
        while take > 0
            invariant
                take < words@.len(),
                names@.len() == words@.len(),
                wv == ast::words_view(words@),
                text::texts(names@) == word_nodes(wv),
                wrong_subcommand(self@, wv, words@.len() - 1) == wrong_subcommand(
                    self@,
                    wv,
                    take as int,
                ),
            decreases take,
        {
            let group = text::join(names, take, " ");
            let subs = self.subcommands(group.as_str());
            if subs.len() > 0 {
                let attempted = &words[take];
                proof {
                    assert(wv[take as int].node == attempted.node@);
                    assert(wv[take as int].span == attempted.span);
                    assert(wv[0].span == words@[0].span);
                }
                let mut msg = text::around("`", group.as_str(), "` has no subcommand `");
                msg.append(attempted.node.as_str());
                msg.append("`");
                let err = ShellError::new(ErrorKind::UnknownCommand, msg.as_str()).with_span(
                    words[0].span.merge(attempted.span),
                );
                // Suggest by the subcommand's own last word, not its full name.
                let tails = tail_texts(group.as_str(), &subs);
                match error::did_you_mean(attempted.node.as_str(), &tails) {
                    Some(s) => {
                        let mut help = text::around("did you mean `", group.as_str(), " ");
                        help.append(s.as_str());
                        help.append("`?");
                        return Some(err.with_help(help.as_str()));
                    },
                    None => {
                        let help = text::around(
                            "run `",
                            group.as_str(),
                            "` to list its subcommands",
                        );
                        return Some(err.with_help(help.as_str()));
                    },
                }
            }
            take = take - 1;
        }
        None
    }

    /// Unknown-command diagnostic. Tries did-you-mean against multi-word
    /// prefixes first so `str upcsae` suggests `str upcase`, not nothing.
    pub fn unknown_command_error(&self, words: &Vec<Spanned<String>>) -> (r: ShellError)
        requires
            words@.len() >= 1,
        ensures
            r@ == unknown_command(self@, ast::words_view(words@)),
    {
        let names = node_texts(words);
        match self.diagnose_subcommand(words, &names) {
            Some(e) => {
                return e;
            },
            None => {},
        }
        let ghost wv = ast::words_view(words@);
        let known = self.name_list();
        let mut take: usize = if words.len() < 3 {
            words.len()
        } else {
            3
        };
        let ghost first = take as int;
        while take > 0
            invariant
                take <= words@.len(),
                names@.len() == words@.len(),
                words@.len() >= 1,
                wv == ast::words_view(words@),
                text::texts(names@) == word_nodes(wv),
                text::texts(known@) == entry_names(self@),
                near_miss(self@, wv, first) == near_miss(self@, wv, take as int),
                wrong_subcommand(self@, wv, words@.len() - 1) is None,
                first == if words@.len() < 3 {
                    words@.len() as int
                } else {
                    3
                },
            decreases take,
        {
            let target = text::join(&names, take, " ");
            match error::did_you_mean(target.as_str(), &known) {
                Some(s) => {
                    proof {
                        assert(wv[0].span == words@[0].span);
                        assert(wv[take - 1].span == words@[take - 1].span);
                    }
                    let msg = text::around("unknown command `", target.as_str(), "`");
                    let help = text::around("did you mean `", s.as_str(), "`?");
                    return ShellError::new(ErrorKind::UnknownCommand, msg.as_str()).with_span(
                        words[0].span.merge(words[take - 1].span),
                    ).with_help(help.as_str());
                },
                None => {},
            }
            take = take - 1;
        }
        proof {
            assert(wv[0].span == words@[0].span);
            assert(wv[0].node == words@[0].node@);
        }
        let msg = text::around("unknown command `", words[0].node.as_str(), "`");
        ShellError::new(ErrorKind::UnknownCommand, msg.as_str()).with_span(
            words[0].span,
        ).with_help("run `help` to list commands")
    }
}

/// The help page of a group, where the words name one.
pub open spec fn group_page(entries: EntrySeq, words: Seq<Seq<char>>) -> Option<Seq<char>> {
    let group = text::joined(words, " "@);
    let subs = members(entries, group);
    if subs.len() == 0 {
        None
    } else {
        Some(signature::group_help_text(group, subs))
    }
}

} // verus!
