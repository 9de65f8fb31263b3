//! The shell's own commands: their signatures, and what they do. Those that
//! need their whole input are in `collect` and `sort`, those that take it item
//! by item in `streaming`.

pub mod collect;
pub mod select;
pub mod sort;
pub mod streaming;

use crate::registry;
use crate::registry::{Command, CommandRegistry, EntrySeq, EntryView};
use crate::signature::{FlagSpecView, PosArgView, Shape, Signature, SignatureView};
use vstd::prelude::*;

verus! {

/// The shell's own commands.
///
/// Everything the multiplexer's prefix keymap does is one of the `mux …` and
/// `session …` commands, so scripts get the full surface for free.
#[derive(Clone, Copy, Debug, PartialEq, Eq, Structural)]
pub enum Builtin {
    Echo,
    Get,
    Grep,
    MapEach,
    Filter,
    Head,
    Tail,
    Length,
    SortBy,
    StrUpcase,
    StrDowncase,
    ToJson,
    FromJson,
    Table,
    Help,
    History,
    Vars,
    Clear,
    MuxSplit,
    MuxWindowNew,
    MuxWindowNext,
    MuxWindowPrev,
    MuxKillPane,
    MuxFocus,
    MuxZoom,
    MuxHide,
    SessionNew,
    SessionList,
    SessionSwitch,
    SessionNext,
    SessionPrev,
}

/// How many commands the shell has of its own.
pub const BUILTIN_COUNT: usize = 31;

/// The `i`-th command in the order of registration.
pub open spec fn builtin_at(i: int) -> Builtin {
    if i == 0 {
        Builtin::Echo
    } else if i == 1 {
        Builtin::Get
    } else if i == 2 {
        Builtin::Grep
    } else if i == 3 {
        Builtin::MapEach
    } else if i == 4 {
        Builtin::Filter
    } else if i == 5 {
        Builtin::Head
    } else if i == 6 {
        Builtin::Tail
    } else if i == 7 {
        Builtin::Length
    } else if i == 8 {
        Builtin::SortBy
    } else if i == 9 {
        Builtin::StrUpcase
    } else if i == 10 {
        Builtin::StrDowncase
    } else if i == 11 {
        Builtin::ToJson
    } else if i == 12 {
        Builtin::FromJson
    } else if i == 13 {
        Builtin::Table
    } else if i == 14 {
        Builtin::Help
    } else if i == 15 {
        Builtin::History
    } else if i == 16 {
        Builtin::Vars
    } else if i == 17 {
        Builtin::Clear
    } else if i == 18 {
        Builtin::MuxSplit
    } else if i == 19 {
        Builtin::MuxWindowNew
    } else if i == 20 {
        Builtin::MuxWindowNext
    } else if i == 21 {
        Builtin::MuxWindowPrev
    } else if i == 22 {
        Builtin::MuxKillPane
    } else if i == 23 {
        Builtin::MuxFocus
    } else if i == 24 {
        Builtin::MuxZoom
    } else if i == 25 {
        Builtin::MuxHide
    } else if i == 26 {
        Builtin::SessionNew
    } else if i == 27 {
        Builtin::SessionList
    } else if i == 28 {
        Builtin::SessionSwitch
    } else if i == 29 {
        Builtin::SessionNext
    } else {
        Builtin::SessionPrev
    }
}

/// Where a command stands in the order of registration.
pub open spec fn rank(which: Builtin) -> int {
    match which {
        Builtin::Echo => 0,
        Builtin::Get => 1,
        Builtin::Grep => 2,
        Builtin::MapEach => 3,
        Builtin::Filter => 4,
        Builtin::Head => 5,
        Builtin::Tail => 6,
        Builtin::Length => 7,
        Builtin::SortBy => 8,
        Builtin::StrUpcase => 9,
        Builtin::StrDowncase => 10,
        Builtin::ToJson => 11,
        Builtin::FromJson => 12,
        Builtin::Table => 13,
        Builtin::Help => 14,
        Builtin::History => 15,
        Builtin::Vars => 16,
        Builtin::Clear => 17,
        Builtin::MuxSplit => 18,
        Builtin::MuxWindowNew => 19,
        Builtin::MuxWindowNext => 20,
        Builtin::MuxWindowPrev => 21,
        Builtin::MuxKillPane => 22,
        Builtin::MuxFocus => 23,
        Builtin::MuxZoom => 24,
        Builtin::MuxHide => 25,
        Builtin::SessionNew => 26,
        Builtin::SessionList => 27,
        Builtin::SessionSwitch => 28,
        Builtin::SessionNext => 29,
        Builtin::SessionPrev => 30,
    }
}

fn nth_builtin(i: usize) -> (r: Builtin)
    requires
        i < BUILTIN_COUNT,
    ensures
        r == builtin_at(i as int),
{
    match i {
        0 => Builtin::Echo,
        1 => Builtin::Get,
        2 => Builtin::Grep,
        3 => Builtin::MapEach,
        4 => Builtin::Filter,
        5 => Builtin::Head,
        6 => Builtin::Tail,
        7 => Builtin::Length,
        8 => Builtin::SortBy,
        9 => Builtin::StrUpcase,
        10 => Builtin::StrDowncase,
        11 => Builtin::ToJson,
        12 => Builtin::FromJson,
        13 => Builtin::Table,
        14 => Builtin::Help,
        15 => Builtin::History,
        16 => Builtin::Vars,
        17 => Builtin::Clear,
        18 => Builtin::MuxSplit,
        19 => Builtin::MuxWindowNew,
        20 => Builtin::MuxWindowNext,
        21 => Builtin::MuxWindowPrev,
        22 => Builtin::MuxKillPane,
        23 => Builtin::MuxFocus,
        24 => Builtin::MuxZoom,
        25 => Builtin::MuxHide,
        26 => Builtin::SessionNew,
        27 => Builtin::SessionList,
        28 => Builtin::SessionSwitch,
        29 => Builtin::SessionNext,
        _ => Builtin::SessionPrev,
    }
}

/// The name that a command is called by.
pub open spec fn name_of(which: Builtin) -> Seq<char> {
    match which {
        Builtin::Echo => "echo"@,
        Builtin::Get => "get"@,
        Builtin::Grep => "grep"@,
        Builtin::MapEach => "map"@,
        Builtin::Filter => "filter"@,
        Builtin::Head => "head"@,
        Builtin::Tail => "tail"@,
        Builtin::Length => "length"@,
        Builtin::SortBy => "sort-by"@,
        Builtin::StrUpcase => "str upcase"@,
        Builtin::StrDowncase => "str downcase"@,
        Builtin::ToJson => "to json"@,
        Builtin::FromJson => "from json"@,
        Builtin::Table => "table"@,
        Builtin::Help => "help"@,
        Builtin::History => "history"@,
        Builtin::Vars => "vars"@,
        Builtin::Clear => "clear"@,
        Builtin::MuxSplit => "mux split"@,
        Builtin::MuxWindowNew => "mux window new"@,
        Builtin::MuxWindowNext => "mux window next"@,
        Builtin::MuxWindowPrev => "mux window prev"@,
        Builtin::MuxKillPane => "mux kill-pane"@,
        Builtin::MuxFocus => "mux focus"@,
        Builtin::MuxZoom => "mux zoom"@,
        Builtin::MuxHide => "mux hide"@,
        Builtin::SessionNew => "session new"@,
        Builtin::SessionList => "session list"@,
        Builtin::SessionSwitch => "session switch"@,
        Builtin::SessionNext => "session next"@,
        Builtin::SessionPrev => "session prev"@,
    }
}

pub open spec fn summary_of(which: Builtin) -> Seq<char> {
    match which {
        Builtin::Echo => "Return the given values"@,
        Builtin::Get => "Extract a column from a record or table"@,
        Builtin::Grep => "Filter rows or lines matching a pattern"@,
        Builtin::MapEach => "Project each item through a closure or field"@,
        Builtin::Filter => "Keep items whose predicate is truthy"@,
        Builtin::Head => "Take the first row (or first n rows)"@,
        Builtin::Tail => "Take the last row (or last n rows)"@,
        Builtin::Length => "Count items in a list (or characters in a string)"@,
        Builtin::SortBy => "Sort a table by a column or computed key"@,
        Builtin::StrUpcase => "Uppercase the input (or given) strings"@,
        Builtin::StrDowncase => "Lowercase the input (or given) strings"@,
        Builtin::ToJson => "Serialize the input to a JSON string"@,
        Builtin::FromJson => "Parse a JSON string into a value"@,
        Builtin::Table => "Force-render the input as text at the current width"@,
        Builtin::Help => "List commands, or show help for one"@,
        Builtin::History => "This shell's command history"@,
        Builtin::Vars => "The variables this shell sees, and where they come from"@,
        Builtin::Clear => "Clear the screen"@,
        Builtin::MuxSplit => "Split the active pane"@,
        Builtin::MuxWindowNew => "Open a new window in this session"@,
        Builtin::MuxWindowNext => "Focus the next window"@,
        Builtin::MuxWindowPrev => "Focus the previous window"@,
        Builtin::MuxKillPane => "Close the active pane"@,
        Builtin::MuxFocus => "Move focus between panes"@,
        Builtin::MuxZoom => "Toggle zoom on the active pane"@,
        Builtin::MuxHide => "Hide the terminal panel"@,
        Builtin::SessionNew => "Fork a new shell session"@,
        Builtin::SessionList => "List sessions"@,
        Builtin::SessionSwitch => "Switch to a session by name"@,
        Builtin::SessionNext => "Cycle to the next session"@,
        Builtin::SessionPrev => "Cycle to the previous session"@,
    }
}

fn name_text(which: Builtin) -> (r: &'static str)
    ensures
        r@ == name_of(which),
{
    match which {
        Builtin::Echo => "echo",
        Builtin::Get => "get",
        Builtin::Grep => "grep",
        Builtin::MapEach => "map",
        Builtin::Filter => "filter",
        Builtin::Head => "head",
        Builtin::Tail => "tail",
        Builtin::Length => "length",
        Builtin::SortBy => "sort-by",
        Builtin::StrUpcase => "str upcase",
        Builtin::StrDowncase => "str downcase",
        Builtin::ToJson => "to json",
        Builtin::FromJson => "from json",
        Builtin::Table => "table",
        Builtin::Help => "help",
        Builtin::History => "history",
        Builtin::Vars => "vars",
        Builtin::Clear => "clear",
        Builtin::MuxSplit => "mux split",
        Builtin::MuxWindowNew => "mux window new",
        Builtin::MuxWindowNext => "mux window next",
        Builtin::MuxWindowPrev => "mux window prev",
        Builtin::MuxKillPane => "mux kill-pane",
        Builtin::MuxFocus => "mux focus",
        Builtin::MuxZoom => "mux zoom",
        Builtin::MuxHide => "mux hide",
        Builtin::SessionNew => "session new",
        Builtin::SessionList => "session list",
        Builtin::SessionSwitch => "session switch",
        Builtin::SessionNext => "session next",
        Builtin::SessionPrev => "session prev",
    }
}

fn summary_text(which: Builtin) -> (r: &'static str)
    ensures
        r@ == summary_of(which),
{
    match which {
        Builtin::Echo => "Return the given values",
        Builtin::Get => "Extract a column from a record or table",
        Builtin::Grep => "Filter rows or lines matching a pattern",
        Builtin::MapEach => "Project each item through a closure or field",
        Builtin::Filter => "Keep items whose predicate is truthy",
        Builtin::Head => "Take the first row (or first n rows)",
        Builtin::Tail => "Take the last row (or last n rows)",
        Builtin::Length => "Count items in a list (or characters in a string)",
        Builtin::SortBy => "Sort a table by a column or computed key",
        Builtin::StrUpcase => "Uppercase the input (or given) strings",
        Builtin::StrDowncase => "Lowercase the input (or given) strings",
        Builtin::ToJson => "Serialize the input to a JSON string",
        Builtin::FromJson => "Parse a JSON string into a value",
        Builtin::Table => "Force-render the input as text at the current width",
        Builtin::Help => "List commands, or show help for one",
        Builtin::History => "This shell's command history",
        Builtin::Vars => "The variables this shell sees, and where they come from",
        Builtin::Clear => "Clear the screen",
        Builtin::MuxSplit => "Split the active pane",
        Builtin::MuxWindowNew => "Open a new window in this session",
        Builtin::MuxWindowNext => "Focus the next window",
        Builtin::MuxWindowPrev => "Focus the previous window",
        Builtin::MuxKillPane => "Close the active pane",
        Builtin::MuxFocus => "Move focus between panes",
        Builtin::MuxZoom => "Toggle zoom on the active pane",
        Builtin::MuxHide => "Hide the terminal panel",
        Builtin::SessionNew => "Fork a new shell session",
        Builtin::SessionList => "List sessions",
        Builtin::SessionSwitch => "Switch to a session by name",
        Builtin::SessionNext => "Cycle to the next session",
        Builtin::SessionPrev => "Cycle to the previous session",
    }
}

pub open spec fn pos_arg(name: Seq<char>, shape: Shape, desc: Seq<char>) -> PosArgView {
    PosArgView { name, shape, desc }
}

pub open spec fn switch(long: Seq<char>, short: char, desc: Seq<char>) -> FlagSpecView {
    FlagSpecView { long, short: Some(short), shape: None, desc }
}

pub open spec fn on_flag(desc: Seq<char>) -> FlagSpecView {
    FlagSpecView { long: "on"@, short: None, shape: Some(Shape::Str), desc }
}

/// The arguments that a command cannot do without.
pub open spec fn required_of(which: Builtin) -> Seq<PosArgView> {
    match which {
        Builtin::Get => seq![
            pos_arg("column"@, Shape::Str, "column/field name"@),
        ],
        Builtin::Grep => seq![
            pos_arg("pattern"@, Shape::Str, "regex in the browser, substring in the CLI"@),
        ],
        Builtin::MapEach => seq![
            pos_arg("selector"@, Shape::Str, "{|o| …} closure, field, dotted path, '(o) => …', or @name"@),
        ],
        Builtin::Filter => seq![
            pos_arg("predicate"@, Shape::Str, "{|o| …} closure, '(o) => …', or @name"@),
        ],
        Builtin::MuxFocus => seq![
            pos_arg("direction"@, Shape::Str, "next|left|right|up|down"@),
        ],
        Builtin::SessionSwitch => seq![
            pos_arg("name"@, Shape::Str, "session name"@),
        ],
        _ => Seq::empty(),
    }
}

pub open spec fn optional_of(which: Builtin) -> Seq<PosArgView> {
    match which {
        Builtin::Head => seq![
            pos_arg("n"@, Shape::Int, "how many rows"@),
        ],
        Builtin::Tail => seq![
            pos_arg("n"@, Shape::Int, "how many rows"@),
        ],
        Builtin::SortBy => seq![
            pos_arg("column"@, Shape::Str, "column to sort by (shorthand for --on)"@),
        ],
        Builtin::SessionNew => seq![
            pos_arg("name"@, Shape::Str, "session name"@),
        ],
        _ => Seq::empty(),
    }
}

pub open spec fn rest_of(which: Builtin) -> Option<PosArgView> {
    match which {
        Builtin::Echo => Some(pos_arg("values"@, Shape::Any, "values to return"@)),
        Builtin::StrUpcase => Some(pos_arg("values"@, Shape::Str, "strings to transform"@)),
        Builtin::StrDowncase => Some(pos_arg("values"@, Shape::Str, "strings to transform"@)),
        Builtin::Help => Some(pos_arg("command"@, Shape::Str, "command name words"@)),
        _ => None,
    }
}

pub open spec fn flags_of(which: Builtin) -> Seq<FlagSpecView> {
    match which {
        Builtin::Grep => seq![
            on_flag("match against this field, path, {|o| …} closure, or @name"@),
            switch("ignore-case"@, 'i', "case-insensitive match"@),
            switch("invert"@, 'v', "keep non-matching rows instead"@),
        ],
        Builtin::Filter => seq![
            switch("invert"@, 'v', "keep items that return false instead"@),
        ],
        Builtin::SortBy => seq![
            on_flag("sort by this field, path, or {|o| …} computed key"@),
            switch("reverse"@, 'r', "descending order"@),
        ],
        Builtin::ToJson => seq![
            switch("pretty"@, 'p', "indent the output"@),
        ],
        Builtin::MuxSplit => seq![
            switch("right"@, 'r', "split side-by-side (default)"@),
            switch("down"@, 'd', "split stacked"@),
        ],
        _ => Seq::empty(),
    }
}

/// The signature that a command declares.
pub open spec fn signature_of(which: Builtin) -> SignatureView {
    SignatureView {
        name: name_of(which),
        summary: summary_of(which),
        required: required_of(which),
        optional: optional_of(which),
        rest: rest_of(which),
        flags: flags_of(which),
    }
}

pub fn signature_for(which: Builtin) -> (r: Signature)
    ensures
        r@ == signature_of(which),
{
    let sig = Signature::build(name_text(which), summary_text(which));
    let r = match which {
        Builtin::Echo => sig.rest_arg("values", Shape::Any, "values to return"),
        Builtin::Get => sig.required_arg(
            "column",
            Shape::Str,
            "column/field name",
        ),
        Builtin::Grep => sig.required_arg(
            "pattern",
            Shape::Str,
            "regex in the browser, substring in the CLI",
        ).on_selector(
            "match against this field, path, {|o| …} closure, or @name",
        ).flag("ignore-case", Some('i'), None, "case-insensitive match").flag("invert", Some('v'), None, "keep non-matching rows instead"),
        Builtin::MapEach => sig.required_arg(
            "selector",
            Shape::Str,
            "{|o| …} closure, field, dotted path, '(o) => …', or @name",
        ),
        Builtin::Filter => sig.required_arg(
            "predicate",
            Shape::Str,
            "{|o| …} closure, '(o) => …', or @name",
        ).flag("invert", Some('v'), None, "keep items that return false instead"),
        Builtin::Head => sig.optional_arg("n", Shape::Int, "how many rows"),
        Builtin::Tail => sig.optional_arg("n", Shape::Int, "how many rows"),
        Builtin::SortBy => sig.optional_arg("column", Shape::Str, "column to sort by (shorthand for --on)").on_selector(
            "sort by this field, path, or {|o| …} computed key",
        ).flag("reverse", Some('r'), None, "descending order"),
        Builtin::StrUpcase => sig.rest_arg("values", Shape::Str, "strings to transform"),
        Builtin::StrDowncase => sig.rest_arg("values", Shape::Str, "strings to transform"),
        Builtin::ToJson => sig.flag("pretty", Some('p'), None, "indent the output"),
        Builtin::Help => sig.rest_arg("command", Shape::Str, "command name words"),
        Builtin::MuxSplit => sig.flag("right", Some('r'), None, "split side-by-side (default)").flag("down", Some('d'), None, "split stacked"),
        Builtin::MuxFocus => sig.required_arg(
            "direction",
            Shape::Str,
            "next|left|right|up|down",
        ),
        Builtin::SessionNew => sig.optional_arg("name", Shape::Str, "session name"),
        Builtin::SessionSwitch => sig.required_arg(
            "name",
            Shape::Str,
            "session name",
        ),
        _ => sig,
    };
    proof {
        assert(r@.required =~= required_of(which));
        assert(r@.optional =~= optional_of(which));
        assert(r@.flags =~= flags_of(which));
    }
    r
}

/// A number that tells a few texts apart: from the length, the first
/// character and the last two.
spec fn code(s: Seq<char>) -> int {
    s.len() * 1000000000 + (s[0] as int) * 1000000 + (s[s.len() - 2] as int) * 1000 + (s[s.len() - 1] as int)
}

spec fn code_of(which: Builtin) -> int {
    match which {
        Builtin::Echo => 4101104111,
        Builtin::Get => 3103101116,
        Builtin::Grep => 4103101112,
        Builtin::MapEach => 3109097112,
        Builtin::Filter => 6102101114,
        Builtin::Head => 4104097100,
        Builtin::Tail => 4116105108,
        Builtin::Length => 6108116104,
        Builtin::SortBy => 7115098121,
        Builtin::StrUpcase => 10115115101,
        Builtin::StrDowncase => 12115115101,
        Builtin::ToJson => 7116111110,
        Builtin::FromJson => 9102111110,
        Builtin::Table => 5116108101,
        Builtin::Help => 4104108112,
        Builtin::History => 7104114121,
        Builtin::Vars => 4118114115,
        Builtin::Clear => 5099097114,
        Builtin::MuxSplit => 9109105116,
        Builtin::MuxWindowNew => 14109101119,
        Builtin::MuxWindowNext => 15109120116,
        Builtin::MuxWindowPrev => 15109101118,
        Builtin::MuxKillPane => 13109110101,
        Builtin::MuxFocus => 9109117115,
        Builtin::MuxZoom => 8109111109,
        Builtin::MuxHide => 8109100101,
        Builtin::SessionNew => 11115101119,
        Builtin::SessionList => 12115115116,
        Builtin::SessionSwitch => 14115099104,
        Builtin::SessionNext => 12115120116,
        Builtin::SessionPrev => 12115101118,
    }
}

proof fn names_have_codes(which: Builtin)
    ensures
        code(name_of(which)) == code_of(which),
{
    match which {
        Builtin::Echo => {
            reveal_strlit("echo");
        },
        Builtin::Get => {
            reveal_strlit("get");
        },
        Builtin::Grep => {
            reveal_strlit("grep");
        },
        Builtin::MapEach => {
            reveal_strlit("map");
        },
        Builtin::Filter => {
            reveal_strlit("filter");
        },
        Builtin::Head => {
            reveal_strlit("head");
        },
        Builtin::Tail => {
            reveal_strlit("tail");
        },
        Builtin::Length => {
            reveal_strlit("length");
        },
        Builtin::SortBy => {
            reveal_strlit("sort-by");
        },
        Builtin::StrUpcase => {
            reveal_strlit("str upcase");
        },
        Builtin::StrDowncase => {
            reveal_strlit("str downcase");
        },
        Builtin::ToJson => {
            reveal_strlit("to json");
        },
        Builtin::FromJson => {
            reveal_strlit("from json");
        },
        Builtin::Table => {
            reveal_strlit("table");
        },
        Builtin::Help => {
            reveal_strlit("help");
        },
        Builtin::History => {
            reveal_strlit("history");
        },
        Builtin::Vars => {
            reveal_strlit("vars");
        },
        Builtin::Clear => {
            reveal_strlit("clear");
        },
        Builtin::MuxSplit => {
            reveal_strlit("mux split");
        },
        Builtin::MuxWindowNew => {
            reveal_strlit("mux window new");
        },
        Builtin::MuxWindowNext => {
            reveal_strlit("mux window next");
        },
        Builtin::MuxWindowPrev => {
            reveal_strlit("mux window prev");
        },
        Builtin::MuxKillPane => {
            reveal_strlit("mux kill-pane");
        },
        Builtin::MuxFocus => {
            reveal_strlit("mux focus");
        },
        Builtin::MuxZoom => {
            reveal_strlit("mux zoom");
        },
        Builtin::MuxHide => {
            reveal_strlit("mux hide");
        },
        Builtin::SessionNew => {
            reveal_strlit("session new");
        },
        Builtin::SessionList => {
            reveal_strlit("session list");
        },
        Builtin::SessionSwitch => {
            reveal_strlit("session switch");
        },
        Builtin::SessionNext => {
            reveal_strlit("session next");
        },
        Builtin::SessionPrev => {
            reveal_strlit("session prev");
        },
    }
}

/// No two commands of the shell share a name.
pub proof fn builtin_names_are_distinct(a: Builtin, b: Builtin)
    requires
        name_of(a) == name_of(b),
    ensures
        a == b,
{
    names_have_codes(a);
    names_have_codes(b);
}

/// The registry's entries for the shell's own commands.
pub open spec fn builtin_entries() -> EntrySeq {
    Seq::new(
        BUILTIN_COUNT as nat,
        |i: int|
            EntryView {
                signature: signature_of(builtin_at(i)),
                command: Command::Builtin(builtin_at(i)),
            },
    )
}

/// Every command of the shell is registered under its name, with its own
/// signature.
pub proof fn every_builtin_is_found(which: Builtin)
    ensures
        registry::distinct_names(builtin_entries()),
        registry::named(builtin_entries(), name_of(which)) == Some(rank(which)),
        builtin_entries()[rank(which)].command == Command::Builtin(which),
        builtin_entries()[rank(which)].signature == signature_of(which),
{
    entries_are_distinct();
    registry::named_is_first(builtin_entries(), name_of(which));
    assert(builtin_at(rank(which)) == which);
    assert(builtin_entries()[rank(which)].signature.name == name_of(which));
}

proof fn entries_are_distinct()
    ensures
        registry::distinct_names(builtin_entries()),
{
    let all = builtin_entries();
    assert forall|i: int, j: int| 0 <= i < j < all.len() implies #[trigger] all[i].signature.name
        != #[trigger] all[j].signature.name by {
        assert(rank(builtin_at(i)) == i);
        assert(rank(builtin_at(j)) == j);
        if name_of(builtin_at(i)) == name_of(builtin_at(j)) {
            builtin_names_are_distinct(builtin_at(i), builtin_at(j));
        }
    }
}

/// The directions that `mux focus` takes are not names of commands.
pub proof fn directions_are_no_commands(s: Seq<char>)
    requires
        s == "mux focus next"@ || s == "mux focus left"@ || s == "mux focus right"@ || s
            == "mux focus up"@ || s == "mux focus down"@,
    ensures
        registry::named(builtin_entries(), s) is None,
{
    reveal_strlit("mux focus next");
    reveal_strlit("mux focus left");
    reveal_strlit("mux focus right");
    reveal_strlit("mux focus up");
    reveal_strlit("mux focus down");
    assert(code(s) == 14109120116 || code(s) == 14109102116 || code(s) == 15109104116 || code(s)
        == 12109117112 || code(s) == 14109119110);
    registry::named_is_first(builtin_entries(), s);
    assert forall|i: int| 0 <= i < builtin_entries().len() implies (
    #[trigger] builtin_entries()[i]).signature.name != s by {
        names_have_codes(builtin_at(i));
    }
}

/// Register the shell's own commands, in their order.
pub fn register_all(registry: &mut CommandRegistry)
    requires
        forall|which: Builtin|
            registry::named(old(registry)@, #[trigger] name_of(which)) is None,
    ensures
        final(registry)@ == old(registry)@ + builtin_entries(),
        registry::distinct_names(old(registry)@) ==> registry::distinct_names(final(registry)@),
{
    let ghost was = registry@;
    let ghost all = builtin_entries();
    let mut i: usize = 0;
    proof {
        assert(was + all.take(0) =~= was);
    }
    while i < BUILTIN_COUNT
        invariant
            i <= BUILTIN_COUNT,
            all == builtin_entries(),
            registry@ == was + all.take(i as int),
            forall|which: Builtin| registry::named(was, #[trigger] name_of(which)) is None,
            registry::distinct_names(was) ==> registry::distinct_names(registry@),
        decreases BUILTIN_COUNT - i,
    {
        let which = nth_builtin(i);
        let sig = signature_for(which);
        proof {
            let now = registry@;
            registry::named_is_first(was, name_of(which));
            registry::named_is_first(now, name_of(which));
            entries_are_distinct();
            assert forall|k: int| 0 <= k < now.len() implies #[trigger] now[k].signature.name
                != name_of(which) by {
                if k < was.len() {
                    assert(now[k] == was[k]);
                } else {
                    assert(now[k] == all[k - was.len()]);
                    assert(all[i as int].signature.name == name_of(which));
                    assert(all[k - was.len()].signature.name != all[i as int].signature.name);
                }
            }
        }
        registry.register_builtin(sig, which);
        proof {
            assert(registry@ =~= was + all.take(i + 1));
        }
        i = i + 1;
    }
    proof {
        assert(all.take(all.len() as int) =~= all);
    }
}

} // verus!
