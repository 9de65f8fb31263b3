//! Command signatures, argument binding, coercion, and help generation.

use crate::ask;
use crate::ask::{Query, QueryView, Replies, Reply, ReplySeq, ReplyView, Stop, StopView};
use crate::ast;
use crate::ast::{Arg, ArgView, Call, CallView, Closure, ClosureView, Expr, ExprView, Spanned};
use crate::ast::WordView;
use crate::error;
use crate::error::{ErrorKind, ErrorView, ShellError, Span};
use crate::expr;
use crate::expr::{NativeClosure, NativeClosureView, Scope, ScopeSeq, Style};
use crate::float;
use crate::render;
use crate::text;
use crate::value;
use crate::value::{Fields, Value, ValueView, MAX_SAFE_INT};
use vstd::prelude::*;

verus! {

broadcast use crate::value::value_view_cases;

/// Declared type of a positional arg or flag value.
#[derive(Clone, Copy, Debug, PartialEq, Eq, Structural)]
pub enum Shape {
    Any,
    Str,
    Int,
    Float,
    Bool,
}

#[derive(Debug)]
pub struct PosArg {
    pub name: String,
    pub shape: Shape,
    pub desc: String,
}

#[derive(Debug)]
pub struct FlagSpec {
    pub long: String,
    pub short: Option<char>,
    /// `None` = switch (present → true); `Some(shape)` = takes a value.
    pub shape: Option<Shape>,
    pub desc: String,
}

/// Nushell-shaped command signature. TS command authors supply the same
/// structure (all collection fields optional there).
#[derive(Debug)]
pub struct Signature {
    pub name: String,
    pub summary: String,
    pub required: Vec<PosArg>,
    pub optional: Vec<PosArg>,
    pub rest: Option<PosArg>,
    pub flags: Vec<FlagSpec>,
}

pub struct PosArgView {
    pub name: Seq<char>,
    pub shape: Shape,
    pub desc: Seq<char>,
}

pub struct FlagSpecView {
    pub long: Seq<char>,
    pub short: Option<char>,
    pub shape: Option<Shape>,
    pub desc: Seq<char>,
}

pub struct SignatureView {
    pub name: Seq<char>,
    pub summary: Seq<char>,
    pub required: Seq<PosArgView>,
    pub optional: Seq<PosArgView>,
    pub rest: Option<PosArgView>,
    pub flags: Seq<FlagSpecView>,
}

impl View for PosArg {
    type V = PosArgView;

    open spec fn view(&self) -> PosArgView {
        PosArgView { name: self.name@, shape: self.shape, desc: self.desc@ }
    }
}

impl View for FlagSpec {
    type V = FlagSpecView;

    open spec fn view(&self) -> FlagSpecView {
        FlagSpecView {
            long: self.long@,
            short: self.short,
            shape: self.shape,
            desc: self.desc@,
        }
    }
}

pub open spec fn pos_args_view(args: Seq<PosArg>) -> Seq<PosArgView> {
    args.map_values(|p: PosArg| p@)
}

pub open spec fn flags_view(flags: Seq<FlagSpec>) -> Seq<FlagSpecView> {
    flags.map_values(|f: FlagSpec| f@)
}

impl View for Signature {
    type V = SignatureView;

    open spec fn view(&self) -> SignatureView {
        SignatureView {
            name: self.name@,
            summary: self.summary@,
            required: pos_args_view(self.required@),
            optional: pos_args_view(self.optional@),
            rest: match self.rest {
                Some(p) => Some(p@),
                None => None,
            },
            flags: flags_view(self.flags@),
        }
    }
}

/// The shape of a positional that declares none.
pub fn default_shape() -> (r: Shape)
    ensures
        r == Shape::Any,
{
    Shape::Any
}

impl Signature {
    pub fn build(name: &str, summary: &str) -> (r: Self)
        ensures
            r@ == (SignatureView {
                name: name@,
                summary: summary@,
                required: Seq::empty(),
                optional: Seq::empty(),
                rest: None,
                flags: Seq::empty(),
            }),
    {
        let r = Signature {
            name: name.to_owned(),
            summary: summary.to_owned(),
            required: Vec::new(),
            optional: Vec::new(),
            rest: None,
            flags: Vec::new(),
        };
        proof {
            assert(pos_args_view(r.required@) =~= Seq::empty());
            assert(pos_args_view(r.optional@) =~= Seq::empty());
            assert(flags_view(r.flags@) =~= Seq::empty());
        }
        r
    }

    pub fn required_arg(self, name: &str, shape: Shape, desc: &str) -> (r: Self)
        ensures
            r@ == (SignatureView {
                required: self@.required.push(PosArgView { name: name@, shape, desc: desc@ }),
                ..self@
            }),
    {
        let mut required = self.required;
        required.push(PosArg { name: name.to_owned(), shape, desc: desc.to_owned() });
        let r = Signature { required, ..self };
        proof {
            assert(r@.required =~= self@.required.push(
                PosArgView { name: name@, shape, desc: desc@ },
            ));
        }
        r
    }

    pub fn optional_arg(self, name: &str, shape: Shape, desc: &str) -> (r: Self)
        ensures
            r@ == (SignatureView {
                optional: self@.optional.push(PosArgView { name: name@, shape, desc: desc@ }),
                ..self@
            }),
    {
        let mut optional = self.optional;
        optional.push(PosArg { name: name.to_owned(), shape, desc: desc.to_owned() });
        let r = Signature { optional, ..self };
        proof {
            assert(r@.optional =~= self@.optional.push(
                PosArgView { name: name@, shape, desc: desc@ },
            ));
        }
        r
    }

    pub fn rest_arg(self, name: &str, shape: Shape, desc: &str) -> (r: Self)
        ensures
            r@ == (SignatureView {
                rest: Some(PosArgView { name: name@, shape, desc: desc@ }),
                ..self@
            }),
    {
        Signature {
            rest: Some(PosArg { name: name.to_owned(), shape, desc: desc.to_owned() }),
            ..self
        }
    }

    pub fn flag(
        self,
        long: &str,
        short: Option<char>,
        shape: Option<Shape>,
        desc: &str,
    ) -> (r: Self)
        ensures
            r@ == (SignatureView {
                flags: self@.flags.push(FlagSpecView { long: long@, short, shape, desc: desc@ }),
                ..self@
            }),
    {
        let mut flags = self.flags;
        flags.push(FlagSpec { long: long.to_owned(), short, shape, desc: desc.to_owned() });
        let r = Signature { flags, ..self };
        proof {
            assert(r@.flags =~= self@.flags.push(
                FlagSpecView { long: long@, short, shape, desc: desc@ },
            ));
        }
        r
    }

    /// Declare the common `--on` parameter: "operate on *this part* of each
    /// item." Its meaning is identical everywhere it appears — a field name,
    /// a dotted path, inline source, or `@registered` — so it is learned
    /// once. Commands where it would be meaningless simply don't declare it
    /// and reject it with the usual unknown-flag diagnostic, rather than
    /// accepting it and silently doing nothing.
    pub fn on_selector(self, desc: &str) -> (r: Self)
        ensures
            r@ == (SignatureView {
                flags: self@.flags.push(
                    FlagSpecView {
                        long: "on"@,
                        short: None,
                        shape: Some(Shape::Str),
                        desc: desc@,
                    },
                ),
                ..self@
            }),
    {
        self.flag("on", None, Some(Shape::Str), desc)
    }
}

/// A text padded with spaces on the right to a number of characters.
pub open spec fn padded(s: Seq<char>, n: nat) -> Seq<char> {
    if s.len() < n {
        s + text::repeated(' ', (n - s.len()) as nat)
    } else {
        s
    }
}

/// How a shape is called in a help page.
pub open spec fn shape_word(shape: Shape) -> Seq<char> {
    match shape {
        Shape::Any => "any"@,
        Shape::Str => "str"@,
        Shape::Int => "int"@,
        Shape::Float => "float"@,
        Shape::Bool => "bool"@,
    }
}

/// The names of positionals, each between two texts.
pub open spec fn bracketed(args: Seq<PosArgView>, open: Seq<char>, close: Seq<char>) -> Seq<char>
    decreases args.len(),
{
    if args.len() == 0 {
        Seq::empty()
    } else {
        bracketed(args.drop_last(), open, close) + open + args.last().name + close
    }
}

/// The usage line of a command.
pub open spec fn usage_text(sig: SignatureView) -> Seq<char> {
    let head = "\x1b[36m"@ + sig.name + "\x1b[0m"@ + bracketed(sig.required, " <"@, ">"@)
        + bracketed(sig.optional, " ["@, "]"@);
    let with_rest = match sig.rest {
        Some(p) => head + " ["@ + p.name + "...]"@,
        None => head,
    };
    if sig.flags.len() > 0 {
        with_rest + " [flags]"@
    } else {
        with_rest
    }
}

/// The lines that describe positionals.
pub open spec fn positional_lines(args: Seq<PosArgView>) -> Seq<char>
    decreases args.len(),
{
    if args.len() == 0 {
        Seq::empty()
    } else {
        positional_lines(args.drop_last()) + positional_line(args.last())
    }
}

/// How a flag is written in a help page.
pub open spec fn flag_names(f: FlagSpecView) -> Seq<char> {
    let long = "--"@ + f.long;
    let with_short = match f.short {
        Some(c) => (long + ", -"@).push(c),
        None => long,
    };
    match f.shape {
        Some(shape) => with_short + " <"@ + shape_word(shape) + ">"@,
        None => with_short,
    }
}

/// The lines that describe flags.
pub open spec fn flag_lines(flags: Seq<FlagSpecView>) -> Seq<char>
    decreases flags.len(),
{
    if flags.len() == 0 {
        Seq::empty()
    } else {
        flag_lines(flags.drop_last()) + flag_line(flags.last())
    }
}

/// All positionals in the order in which they are given.
pub open spec fn all_positionals(sig: SignatureView) -> Seq<PosArgView> {
    let fixed = sig.required + sig.optional;
    match sig.rest {
        Some(p) => fixed.push(p),
        None => fixed,
    }
}

/// The help page of a command.
pub open spec fn help_text(sig: SignatureView) -> Seq<char> {
    let head = sig.summary + "\n\n"@ + "\x1b[1mUsage:\x1b[0m "@ + usage_text(sig) + "\n"@;
    let positionals = all_positionals(sig);
    let with_positionals = if positionals.len() > 0 {
        head + "\n\x1b[1mPositionals:\x1b[0m\n"@ + positional_lines(positionals)
    } else {
        head
    };
    if sig.flags.len() > 0 {
        with_positionals + "\n\x1b[1mFlags:\x1b[0m\n"@ + flag_lines(sig.flags)
    } else {
        with_positionals
    }
}

fn push_padded(out: &mut String, s: &str, n: usize)
    ensures
        final(out)@ == old(out)@ + padded(s@, n as nat),
{
    let len: usize = s.unicode_len();
    out.append(s);
    if len < n {
        let pad = text::repeat_char(' ', n - len);
        out.append(pad.as_str());
        proof {
            assert(out@ =~= old(out)@ + padded(s@, n as nat));
        }
    }
}

fn shape_label(shape: Shape) -> (r: &'static str)
    ensures
        r@ == shape_word(shape),
{
    match shape {
        Shape::Any => "any",
        Shape::Str => "str",
        Shape::Int => "int",
        Shape::Float => "float",
        Shape::Bool => "bool",
    }
}

fn push_bracketed(out: &mut String, args: &Vec<PosArg>, open: &str, close: &str)
    ensures
        final(out)@ == old(out)@ + bracketed(pos_args_view(args@), open@, close@),
{
    let ghost all = pos_args_view(args@);
    let ghost before = out@;
    let mut i: usize = 0;
    proof {
        assert(before + bracketed(all.take(0), open@, close@) =~= before);
    }
    while i < args.len()
        invariant
            i <= args@.len(),
            all == pos_args_view(args@),
            out@ == before + bracketed(all.take(i as int), open@, close@),
        decreases args@.len() - i,
    {
        let ghost so_far = bracketed(all.take(i as int), open@, close@);
        out.append(open);
        out.append(args[i].name.as_str());
        out.append(close);
        proof {
            assert(all.take(i + 1).drop_last() =~= all.take(i as int));
            assert(all.take(i + 1).last() == args@[i as int]@);
            assert(before + so_far + open@ + args@[i as int].name@ + close@ =~= before + (so_far
                + open@ + args@[i as int].name@ + close@));
        }
        i = i + 1;
    }
    proof {
        assert(all.take(all.len() as int) =~= all);
    }
}

/// The line that describes one positional.
pub open spec fn positional_line(p: PosArgView) -> Seq<char> {
    "  \x1b[36m"@ + padded(p.name, 12) + "\x1b[0m \x1b[2m"@ + padded(shape_word(p.shape), 7)
        + "\x1b[0m "@ + p.desc + "\n"@
}

proof fn positional_lines_concat(a: Seq<PosArgView>, b: Seq<PosArgView>)
    ensures
        positional_lines(a + b) == positional_lines(a) + positional_lines(b),
    decreases b.len(),
{
    if b.len() == 0 {
        assert(a + b =~= a);
        assert(positional_lines(a) + positional_lines(b) =~= positional_lines(a));
    } else {
        positional_lines_concat(a, b.drop_last());
        assert((a + b).drop_last() =~= a + b.drop_last());
        assert((a + b).last() == b.last());
        assert(positional_lines(a + b) =~= positional_lines(a) + positional_lines(b));
    }
}

fn push_positional(out: &mut String, p: &PosArg)
    ensures
        final(out)@ == old(out)@ + positional_line(p@),
{
    out.append("  \x1b[36m");
    push_padded(out, p.name.as_str(), 12);
    out.append("\x1b[0m \x1b[2m");
    push_padded(out, shape_label(p.shape), 7);
    out.append("\x1b[0m ");
    out.append(p.desc.as_str());
    out.append("\n");
    proof {
        assert(out@ =~= old(out)@ + positional_line(p@));
    }
}

fn push_positional_lines(out: &mut String, args: &Vec<PosArg>)
    ensures
        final(out)@ == old(out)@ + positional_lines(pos_args_view(args@)),
{
    let ghost all = pos_args_view(args@);
    let ghost base = out@;
    let mut i: usize = 0;
    proof {
        assert(base + positional_lines(all.take(0)) =~= base);
    }
    while i < args.len()
        invariant
            i <= args@.len(),
            all == pos_args_view(args@),
            out@ == base + positional_lines(all.take(i as int)),
        decreases args@.len() - i,
    {
        push_positional(out, &args[i]);
        proof {
            assert(all.take(i + 1).drop_last() =~= all.take(i as int));
            assert(all.take(i + 1).last() == args@[i as int]@);
        }
        i = i + 1;
    }
    proof {
        assert(all.take(all.len() as int) =~= all);
    }
}

fn names_of_flag(f: &FlagSpec) -> (r: String)
    ensures
        r@ == flag_names(f@),
{
    let mut names = "--".to_owned();
    names.append(f.long.as_str());
    if let Some(c) = f.short {
        names.append(", -");
        names.push(c);
    }
    if let Some(shape) = f.shape {
        names.append(" <");
        names.append(shape_label(shape));
        names.append(">");
    }
    names
}

/// The line that describes one flag.
pub open spec fn flag_line(f: FlagSpecView) -> Seq<char> {
    "  \x1b[36m"@ + padded(flag_names(f), 24) + "\x1b[0m "@ + f.desc + "\n"@
}

fn push_flag_lines(out: &mut String, flags: &Vec<FlagSpec>)
    ensures
        final(out)@ == old(out)@ + flag_lines(flags_view(flags@)),
{
    let ghost all = flags_view(flags@);
    let ghost base = out@;
    let mut i: usize = 0;
    proof {
        assert(base + flag_lines(all.take(0)) =~= base);
    }
    while i < flags.len()
        invariant
            i <= flags@.len(),
            all == flags_view(flags@),
            out@ == base + flag_lines(all.take(i as int)),
        decreases flags@.len() - i,
    {
        let names = names_of_flag(&flags[i]);
        out.append("  \x1b[36m");
        push_padded(out, names.as_str(), 24);
        out.append("\x1b[0m ");
        out.append(flags[i].desc.as_str());
        out.append("\n");
        proof {
            assert(all.take(i + 1).drop_last() =~= all.take(i as int));
            assert(all.take(i + 1).last() == flags@[i as int]@);
            assert(out@ =~= base + (flag_lines(all.take(i as int)) + flag_line(
                flags@[i as int]@,
            )));
        }
        i = i + 1;
    }
    proof {
        assert(all.take(all.len() as int) =~= all);
    }
}

impl Signature {
    /// `help <name>` / `--help` text.
    pub fn render_help(&self) -> (r: String)
        ensures
            r@ == help_text(self@),
    {
        let mut usage = "\x1b[36m".to_owned();
        usage.append(self.name.as_str());
        usage.append("\x1b[0m");
        push_bracketed(&mut usage, &self.required, " <", ">");
        push_bracketed(&mut usage, &self.optional, " [", "]");
        if let Some(p) = &self.rest {
            usage.append(" [");
            usage.append(p.name.as_str());
            usage.append("...]");
        }
        if self.flags.len() > 0 {
            usage.append(" [flags]");
        }
        let mut out = self.summary.clone();
        out.append("\n\n");
        out.append("\x1b[1mUsage:\x1b[0m ");
        out.append(usage.as_str());
        out.append("\n");
        let has_rest = self.rest.is_some();
        if self.required.len() > 0 || self.optional.len() > 0 || has_rest {
            let ghost head = out@;
            out.append("\n\x1b[1mPositionals:\x1b[0m\n");
            push_positional_lines(&mut out, &self.required);
            push_positional_lines(&mut out, &self.optional);
            proof {
                positional_lines_concat(self@.required, self@.optional);
                assert(out@ =~= head + "\n\x1b[1mPositionals:\x1b[0m\n"@ + positional_lines(
                    self@.required + self@.optional,
                ));
            }
            if let Some(p) = &self.rest {
                push_positional(&mut out, p);
                proof {
                    let fixed = self@.required + self@.optional;
                    assert(fixed.push(p@).drop_last() =~= fixed);
                    assert(fixed.push(p@).last() == p@);
                    assert(out@ =~= head + "\n\x1b[1mPositionals:\x1b[0m\n"@ + positional_lines(
                        fixed.push(p@),
                    ));
                }
            }
        }
        if self.flags.len() > 0 {
            out.append("\n\x1b[1mFlags:\x1b[0m\n");
            push_flag_lines(&mut out, &self.flags);
        }
        out
    }
}

/// The names and summaries of subcommands.
pub open spec fn subs_view(subs: Seq<(String, String)>) -> Seq<(Seq<char>, Seq<char>)> {
    subs.map_values(|s: (String, String)| (s.0@, s.1@))
}

/// Width of the name column of a group's help page: the longest name in bytes,
/// at least twelve.
pub open spec fn group_width(subs: Seq<(Seq<char>, Seq<char>)>) -> nat
    decreases subs.len(),
{
    if subs.len() == 0 {
        12
    } else {
        let before = group_width(subs.drop_last());
        let len = text::byte_len(subs.last().0);
        if len > before {
            len
        } else {
            before
        }
    }
}

/// The lines that list subcommands.
pub open spec fn sub_lines(subs: Seq<(Seq<char>, Seq<char>)>, width: nat) -> Seq<char>
    decreases subs.len(),
{
    if subs.len() == 0 {
        Seq::empty()
    } else {
        sub_lines(subs.drop_last(), width) + ("  \x1b[36m"@ + padded(subs.last().0, width)
            + "\x1b[0m "@ + subs.last().1 + "\n"@)
    }
}

/// Help for a command group.
pub open spec fn group_help_text(
    group: Seq<char>,
    subs: Seq<(Seq<char>, Seq<char>)>,
) -> Seq<char> {
    "`"@ + group + "` is a command group.\n\n"@ + "\x1b[1mUsage:\x1b[0m \x1b[36m"@ + group
        + "\x1b[0m <subcommand> [args] [flags]\n"@ + "\n\x1b[1mSubcommands:\x1b[0m\n"@ + sub_lines(
        subs,
        group_width(subs),
    ) + "\n\x1b[2mRun `"@ + group + " <subcommand> --help` for a subcommand's own page.\x1b[0m\n"@
}

/// Help for a command *group* — a name like `task` or `mux` that isn't a
/// command itself but prefixes several that are.
///
/// Multi-word names are the subcommand mechanism (`str upcase` is just a
/// name containing a space), which means a group has no signature of its own
/// to render.
///
/// `subs` is (full name, summary), sorted by the caller.
pub fn render_group_help(group: &str, subs: &Vec<(String, String)>) -> (r: String)
    ensures
        r@ == group_help_text(group@, subs_view(subs@)),
{
    let ghost all = subs_view(subs@);
    let mut width: usize = 12;
    let mut i: usize = 0;
    while i < subs.len()
        invariant
            i <= subs@.len(),
            all == subs_view(subs@),
            width == group_width(all.take(i as int)),
        decreases subs@.len() - i,
    {
        let len: usize = subs[i].0.as_str().as_bytes().len();
        proof {
            text::byte_len_is_encoded_len(subs@[i as int].0@);
            assert(all.take(i + 1).drop_last() =~= all.take(i as int));
            assert(all.take(i + 1).last() == (subs@[i as int].0@, subs@[i as int].1@));
        }
        if len > width {
            width = len;
        }
        i = i + 1;
    }
    proof {
        assert(all.take(all.len() as int) =~= all);
    }
    let mut out = "`".to_owned();
    out.append(group);
    out.append("` is a command group.\n\n");
    out.append("\x1b[1mUsage:\x1b[0m \x1b[36m");
    out.append(group);
    out.append("\x1b[0m <subcommand> [args] [flags]\n");
    out.append("\n\x1b[1mSubcommands:\x1b[0m\n");
    let ghost base = out@;
    let mut k: usize = 0;
    proof {
        assert(base + sub_lines(all.take(0), width as nat) =~= base);
    }
    while k < subs.len()
        invariant
            k <= subs@.len(),
            all == subs_view(subs@),
            out@ == base + sub_lines(all.take(k as int), width as nat),
        decreases subs@.len() - k,
    {
        out.append("  \x1b[36m");
        push_padded(&mut out, subs[k].0.as_str(), width);
        out.append("\x1b[0m ");
        out.append(subs[k].1.as_str());
        out.append("\n");
        proof {
            assert(all.take(k + 1).drop_last() =~= all.take(k as int));
            assert(all.take(k + 1).last() == (subs@[k as int].0@, subs@[k as int].1@));
            assert(out@ =~= base + sub_lines(all.take(k + 1), width as nat));
        }
        k = k + 1;
    }
    out.append("\n\x1b[2mRun `");
    out.append(group);
    out.append(" <subcommand> --help` for a subcommand's own page.\x1b[0m\n");
    out
}

/// A call after binding: evaluated, coerced values in place.
#[derive(Debug)]
pub struct BoundCall {
    pub head_span: Span,
    pub positionals: Vec<Value>,
    /// Keyed by long flag name. Switches bind to `Bool(true)`.
    pub flags: Fields,
    /// Closure literals, keyed by the parameter or flag name they were
    /// bound to. A closure isn't a `Value`; of several under one name the
    /// last counts.
    pub closures: Vec<(String, NativeClosure)>,
}

pub struct BoundCallView {
    pub head_span: Span,
    pub positionals: Seq<ValueView>,
    pub flags: Seq<(Seq<char>, ValueView)>,
    pub closures: Seq<(Seq<char>, NativeClosureView)>,
}

pub open spec fn closures_view(closures: Seq<(String, NativeClosure)>) -> Seq<
    (Seq<char>, NativeClosureView),
> {
    closures.map_values(|c: (String, NativeClosure)| (c.0@, c.1@))
}

impl View for BoundCall {
    type V = BoundCallView;

    open spec fn view(&self) -> BoundCallView {
        BoundCallView {
            head_span: self.head_span,
            positionals: value::values_view(self.positionals@),
            flags: self.flags@,
            closures: closures_view(self.closures@),
        }
    }
}

/// The closure bound to a name: the last of several.
pub open spec fn closure_named(
    closures: Seq<(Seq<char>, NativeClosureView)>,
    name: Seq<char>,
) -> Option<NativeClosureView>
    decreases closures.len(),
{
    if closures.len() == 0 {
        None
    } else if closures.last().0 == name {
        Some(closures.last().1)
    } else {
        closure_named(closures.drop_last(), name)
    }
}

impl BoundCall {
    pub fn flag(&self, name: &str) -> (r: Option<&Value>)
        ensures
            match r {
                Some(v) => value::lookup(self@.flags, name@) == Some(v@),
                None => value::lookup(self@.flags, name@) is None,
            },
    {
        self.flags.get(name)
    }

    pub fn has_flag(&self, name: &str) -> (r: bool)
        ensures
            r == (value::lookup(self@.flags, name@) == Some(ValueView::Bool(true))),
    {
        match self.flags.get(name) {
            Some(Value::Bool(b)) => *b,
            _ => false,
        }
    }

    /// A closure literal bound to this parameter or flag, if one was given.
    pub fn closure(&self, name: &str) -> (r: Option<&NativeClosure>)
        ensures
            match r {
                Some(c) => closure_named(self@.closures, name@) == Some(c@),
                None => closure_named(self@.closures, name@) is None,
            },
    {
        let ghost all = closures_view(self.closures@);
        let mut i: usize = self.closures.len();
        proof {
            assert(all.take(all.len() as int) =~= all);
        }
        while i > 0
            invariant
                i <= self.closures@.len(),
                all == closures_view(self.closures@),
                closure_named(all, name@) == closure_named(all.take(i as int), name@),
            decreases i,
        {
            proof {
                assert(all.take(i as int).drop_last() =~= all.take(i - 1));
                assert(all.take(i as int).last() == (
                    self.closures@[i - 1].0@,
                    self.closures@[i - 1].1@,
                ));
            }
            if text::same_text(self.closures[i - 1].0.as_str(), name) {
                return Some(&self.closures[i - 1].1);
            }
            i = i - 1;
        }
        None
    }
}

/// Is this argument the flag `--help`?
pub open spec fn asks_help(arg: ArgView) -> bool {
    arg matches ArgView::Flag { name, long, .. } && long && name == "help"@
}

/// Did the raw call ask for `--help`? Checked before binding so a bad call
/// can still get help.
pub fn wants_help(call: &Call) -> (r: bool)
    ensures
        r == exists|i: int|
            0 <= i < call@.args.len() && asks_help(#[trigger] call@.args[i]),
{
    let mut i: usize = 0;
    while i < call.args.len()
        invariant
            i <= call.args@.len(),
            forall|j: int| 0 <= j < i ==> !asks_help(#[trigger] call@.args[j]),
        decreases call.args@.len() - i,
    {
        proof {
            assert(call@.args[i as int] == call.args@[i as int]@);
        }
        if let Arg::Flag { name, long, .. } = &call.args[i] {
            if *long && text::same_text(name.as_str(), "help") {
                proof {
                    assert(asks_help(call@.args[i as int]));
                }
                return true;
            }
        }
        i = i + 1;
    }
    false
}

/// The value of an argument. A bare `true` or `false` is a boolean literal; a
/// quoted one stays a string.
pub open spec fn arg_value(e: ExprView, scope: ScopeSeq, replies: ReplySeq) -> Result<
    ValueView,
    StopView,
> {
    match e {
        ExprView::Bareword(w, _) => Ok(word_value(w)),
        ExprView::StrInterp(parts, span) => match expr::interpolated(
            Style::Full,
            parts,
            scope,
            span,
            replies,
        ) {
            Ok(t) => Ok(ValueView::Str(t)),
            Err(e) => Err(e),
        },
        _ => expr::evaluated(e, scope, replies),
    }
}

pub open spec fn word_value(w: Seq<char>) -> ValueView {
    if w == "true"@ {
        ValueView::Bool(true)
    } else if w == "false"@ {
        ValueView::Bool(false)
    } else {
        ValueView::Str(w)
    }
}

fn eval_word(w: &String) -> (r: Value)
    ensures
        r@ == word_value(w@),
{
    if text::same_text(w.as_str(), "true") {
        Value::Bool(true)
    } else if text::same_text(w.as_str(), "false") {
        Value::Bool(false)
    } else {
        Value::Str(w.clone())
    }
}

/// Evaluate an argument expression to a Value against the scope.
pub fn eval_expr(e: &Expr, scope: &Scope, replies: &Replies) -> (r: Result<Value, Stop>)
    ensures
        expr::value_result(r) == arg_value(e@, scope@, replies@),
{
    match e {
        Expr::Bareword(w, _) => Ok(eval_word(w)),
        Expr::StrInterp(parts, span) => match expr::eval_interp(
            Style::Full,
            parts,
            *span,
            scope,
            replies,
        ) {
            Ok(t) => Ok(Value::Str(t)),
            Err(e) => Err(e),
        },
        _ => expr::eval_expr(e, scope, replies),
    }
}

/// How a shape is called in a diagnostic.
pub open spec fn shape_phrase(shape: Shape) -> Seq<char> {
    match shape {
        Shape::Any => "any value"@,
        Shape::Str => "a string"@,
        Shape::Int => "an int"@,
        Shape::Float => "a float"@,
        Shape::Bool => "a bool"@,
    }
}

pub fn shape_name(shape: Shape) -> (r: &'static str)
    ensures
        r@ == shape_phrase(shape),
{
    match shape {
        Shape::Any => "any value",
        Shape::Str => "a string",
        Shape::Int => "an int",
        Shape::Float => "a float",
        Shape::Bool => "a bool",
    }
}

/// Is a text an optional sign and at least one digit?
pub open spec fn int_syntax(s: Seq<char>) -> bool {
    let digits = unsigned_part(s);
    digits.len() > 0 && forall|i: int| 0 <= i < digits.len() ==> text::digit(#[trigger] digits[i])
}

pub open spec fn unsigned_part(s: Seq<char>) -> Seq<char> {
    if s.len() > 0 && (s[0] == '-' || s[0] == '+') {
        s.skip(1)
    } else {
        s
    }
}

/// The integer that a text denotes, if it denotes one of 64 bits.
pub open spec fn parsed_int(s: Seq<char>) -> Option<int> {
    let v = text::decimal_value(unsigned_part(s)) as int;
    let n = if s.len() > 0 && s[0] == '-' {
        -v
    } else {
        v
    };
    if int_syntax(s) && i64::MIN <= n <= i64::MAX {
        Some(n)
    } else {
        None
    }
}

fn parse_int(s: &str) -> (r: Option<i64>)
    ensures
        match r {
            Some(n) => parsed_int(s@) == Some(n as int),
            None => parsed_int(s@) is None,
        },
{
    let chars = text::to_chars(s);
    let negative = chars.len() > 0 && chars[0] == '-';
    let signed = chars.len() > 0 && (chars[0] == '-' || chars[0] == '+');
    let first: usize = if signed { 1 } else { 0 };
    let ghost digits = unsigned_part(s@);
    proof {
        if !signed {
            assert(digits =~= s@.skip(0));
        }
        assert forall|i: int| 0 <= i < digits.len() implies digits[i] == s@[first + i] by {}
    }
    if first == chars.len() {
        return None;
    }
    let mut acc: u64 = 0;
    let mut big = false;
    let mut k: usize = first;
    while k < chars.len()
        invariant
            first <= k <= chars@.len(),
            chars@ == s@,
            first <= 1,
            digits == unsigned_part(s@),
            digits.len() == s@.len() - first,
            forall|i: int| 0 <= i < digits.len() ==> digits[i] == s@[first + i],
            forall|i: int| 0 <= i < k - first ==> text::digit(#[trigger] digits[i]),
            !big ==> acc == text::decimal_value(digits.take(k - first)),
            big ==> text::decimal_value(digits.take(k - first)) > 0x8000_0000_0000_0000,
        decreases chars@.len() - k,
    {
        let c = chars[k];
        proof {
            assert(digits[k - first] == c);
        }
        if !text::is_digit(c) {
            proof {
                assert(!text::digit(digits[k - first]));
            }
            return None;
        }
        proof {
            assert(digits.take(k - first + 1).drop_last() =~= digits.take(k - first));
            assert(digits.take(k - first + 1).last() == c);
        }
        let d: u64 = (c as u32 - '0' as u32) as u64;
        if acc > 922_337_203_685_477_580 {
            big = true;
        } else {
            acc = acc * 10 + d;
        }
        k = k + 1;
    }
    proof {
        assert(digits.take(digits.len() as int) =~= digits);
    }
    if big {
        None
    } else if negative {
        if acc <= 0x8000_0000_0000_0000 {
            Some((-(acc as i128)) as i64)
        } else {
            None
        }
    } else if acc <= 0x7fff_ffff_ffff_ffff {
        Some(acc as i64)
    } else {
        None
    }
}

pub open spec fn type_stop(msg: Seq<char>, at: Span) -> StopView {
    StopView::Fail(ErrorView::at(ErrorKind::Type, msg, at))
}

/// The diagnostic for a value of the wrong type.
pub open spec fn wrong_shape(v: ValueView, shape: Shape, at: Span, what: Seq<char>) -> StopView {
    type_stop(
        what + " expects "@ + shape_phrase(shape) + ", found "@ + value::type_label_of(v) + " "@,
        at,
    )
}

/// A value as a declared shape wants it. Barewords arrive as strings and may
/// convert; typed literals must already match (an integer upgrades to a
/// float).
pub open spec fn coerced(
    v: ValueView,
    shape: Shape,
    at: Span,
    what: Seq<char>,
    replies: ReplySeq,
) -> Result<ValueView, StopView> {
    match shape {
        Shape::Any => Ok(v),
        Shape::Str => match v {
            ValueView::Str(s) => Ok(v),
            ValueView::Int(n) => Ok(ValueView::Str(text::decimal_text(n as int))),
            ValueView::Float(f) => match ask::text_answer(
                replies,
                QueryView::ShowFloat(f),
            ) {
                Ok(t) => Ok(ValueView::Str(t)),
                Err(e) => Err(e),
            },
            ValueView::Bool(b) => Ok(ValueView::Str(render::bool_text(b))),
            _ => Err(wrong_shape(v, shape, at, what)),
        },
        Shape::Int => match v {
            ValueView::Int(_) => Ok(v),
            ValueView::Str(s) => match parsed_int(s) {
                None => Err(type_stop(what + " expects an int, found `"@ + s + "`"@, at)),
                Some(n) => if -MAX_SAFE_INT <= n <= MAX_SAFE_INT {
                    Ok(ValueView::Int(n as i64))
                } else {
                    Err(
                        type_stop(
                            what + ": `"@ + s
                                + "` exceeds 2^53 and would lose precision in JavaScript"@,
                            at,
                        ),
                    )
                },
            },
            _ => Err(wrong_shape(v, shape, at, what)),
        },
        Shape::Float => match v {
            ValueView::Float(_) => Ok(v),
            ValueView::Int(n) => Ok(ValueView::Float(float::nearest_float(n))),
            ValueView::Str(s) => match ask::reply_to(replies, QueryView::ParseFloat(s)) {
                Some(ReplyView::Float(f)) => Ok(ValueView::Float(f)),
                Some(ReplyView::Refused(_)) => Err(
                    type_stop(what + " expects a float, found `"@ + s + "`"@, at),
                ),
                _ => Err(StopView::Need(QueryView::ParseFloat(s))),
            },
            _ => Err(wrong_shape(v, shape, at, what)),
        },
        Shape::Bool => match v {
            ValueView::Bool(_) => Ok(v),
            ValueView::Str(s) => if s == "true"@ {
                Ok(ValueView::Bool(true))
            } else if s == "false"@ {
                Ok(ValueView::Bool(false))
            } else {
                Err(wrong_shape(v, shape, at, what))
            },
            _ => Err(wrong_shape(v, shape, at, what)),
        },
    }
}

fn fail_type(msg: &str, at: Span) -> (r: Stop)
    ensures
        r@ == type_stop(msg@, at),
{
    Stop::Fail(ShellError::type_error(msg).with_span(at))
}

fn fail_shape(v: &Value, shape: Shape, at: Span, what: &str) -> (r: Stop)
    ensures
        r@ == wrong_shape(v@, shape, at, what@),
{
    let mut m = what.to_owned();
    m.append(" expects ");
    m.append(shape_name(shape));
    m.append(", found ");
    m.append(v.type_label());
    m.append(" ");
    fail_type(m.as_str(), at)
}

/// Coerce a bound value to the declared shape.
pub fn coerce(value: Value, shape: Shape, at: Span, what: &str, replies: &Replies) -> (r: Result<
    Value,
    Stop,
>)
    ensures
        expr::value_result(r) == coerced(value@, shape, at, what@, replies@),
{
    match shape {
        Shape::Any => Ok(value),
        Shape::Str => match &value {
            Value::Str(s) => Ok(Value::Str(s.clone())),
            Value::Int(n) => Ok(Value::Str(text::int_text(*n))),
            Value::Float(f) => match ask::ask_text(replies, Query::ShowFloat(*f)) {
                Ok(t) => Ok(Value::Str(t)),
                Err(e) => Err(e),
            },
            Value::Bool(b) => Ok(Value::Str(render::show_bool(*b))),
            _ => Err(fail_shape(&value, shape, at, what)),
        },
        Shape::Int => match &value {
            Value::Int(n) => Ok(Value::Int(*n)),
            Value::Str(s) => match parse_int(s.as_str()) {
                None => {
                    let mut m = what.to_owned();
                    m.append(" expects an int, found `");
                    m.append(s.as_str());
                    m.append("`");
                    Err(fail_type(m.as_str(), at))
                },
                // Same 2^53 gate as the lexer — coercion must not be a
                // second door for precision-losing integers.
                Some(n) => {
                    if -MAX_SAFE_INT <= n && n <= MAX_SAFE_INT {
                        Ok(Value::Int(n))
                    } else {
                        let mut m = what.to_owned();
                        m.append(": `");
                        m.append(s.as_str());
                        m.append("` exceeds 2^53 and would lose precision in JavaScript");
                        Err(fail_type(m.as_str(), at))
                    }
                },
            },
            _ => Err(fail_shape(&value, shape, at, what)),
        },
        Shape::Float => match &value {
            Value::Float(f) => Ok(Value::Float(*f)),
            Value::Int(n) => Ok(Value::Float(float::from_int(*n))),
            Value::Str(s) => {
                let query = Query::ParseFloat(s.clone());
                match replies.find(&query) {
                    Some(Reply::Float(f)) => Ok(Value::Float(*f)),
                    Some(Reply::Refused(_)) => {
                        let mut m = what.to_owned();
                        m.append(" expects a float, found `");
                        m.append(s.as_str());
                        m.append("`");
                        Err(fail_type(m.as_str(), at))
                    },
                    _ => Err(Stop::Need(query)),
                }
            },
            _ => Err(fail_shape(&value, shape, at, what)),
        },
        Shape::Bool => match &value {
            Value::Bool(b) => Ok(Value::Bool(*b)),
            Value::Str(s) => {
                if text::same_text(s.as_str(), "true") {
                    Ok(Value::Bool(true))
                } else if text::same_text(s.as_str(), "false") {
                    Ok(Value::Bool(false))
                } else {
                    Err(fail_shape(&value, shape, at, what))
                }
            },
            _ => Err(fail_shape(&value, shape, at, what)),
        },
    }
}

/// Does a flag declaration answer to a name? Short flags go by one letter.
pub open spec fn answers_to(f: FlagSpecView, name: Seq<char>, long: bool) -> bool {
    if long {
        f.long == name
    } else {
        name.len() > 0 && f.short == Some(name[0])
    }
}

/// Index of the first flag declaration that answers to a name.
pub open spec fn flag_index(flags: Seq<FlagSpecView>, name: Seq<char>, long: bool) -> Option<int>
    decreases flags.len(),
{
    if flags.len() == 0 {
        None
    } else {
        match flag_index(flags.drop_last(), name, long) {
            Some(i) => Some(i),
            None => if answers_to(flags.last(), name, long) {
                Some(flags.len() - 1)
            } else {
                None
            },
        }
    }
}

pub open spec fn long_names(flags: Seq<FlagSpecView>) -> Seq<Seq<char>> {
    flags.map_values(|f: FlagSpecView| f.long)
}

pub open spec fn binding_error(msg: Seq<char>, span: Span) -> ErrorView {
    ErrorView::at(ErrorKind::Binding, msg, span)
}

/// The diagnostic for a flag that the signature does not declare.
pub open spec fn unknown_flag(
    sig: SignatureView,
    name: Seq<char>,
    long: bool,
    span: Span,
) -> StopView {
    let dashes = if long {
        "unknown flag `--"@
    } else {
        "unknown flag `-"@
    };
    let e = binding_error(dashes + name + "`"@, span);
    StopView::Fail(
        match error::suggestion(name, long_names(sig.flags)) {
            Some(s) => e.helped("did you mean `--"@ + s + "`?"@),
            None => if sig.flags.len() == 0 {
                e.helped("`"@ + sig.name + "` takes no flags"@)
            } else {
                e
            },
        },
    )
}

pub(crate) proof fn flag_index_is_first(flags: Seq<FlagSpecView>, name: Seq<char>, long: bool)
    ensures
        match flag_index(flags, name, long) {
            Some(i) => 0 <= i < flags.len() && answers_to(flags[i], name, long) && forall|j: int|
                0 <= j < i ==> !answers_to(#[trigger] flags[j], name, long),
            None => forall|j: int|
                0 <= j < flags.len() ==> !answers_to(#[trigger] flags[j], name, long),
        },
    decreases flags.len(),
{
    if flags.len() > 0 {
        let init = flags.drop_last();
        flag_index_is_first(init, name, long);
        assert forall|j: int| 0 <= j < init.len() implies init[j] == flags[j] by {}
    }
}

/// The declaration that a flag on the line refers to.
fn find_flag<'a>(sig: &'a Signature, name: &str, long: bool, span: Span) -> (r: Result<
    &'a FlagSpec,
    Stop,
>)
    ensures
        match r {
            Ok(f) => flag_index(sig@.flags, name@, long) is Some && f@
                == sig@.flags[flag_index(sig@.flags, name@, long)->0],
            Err(e) => flag_index(sig@.flags, name@, long) is None && e@ == unknown_flag(
                sig@,
                name@,
                long,
                span,
            ),
        },
{
    let ghost flags = sig@.flags;
    let chars = text::to_chars(name);
    let mut i: usize = 0;
    while i < sig.flags.len()
        invariant
            i <= sig.flags@.len(),
            flags == flags_view(sig.flags@),
            chars@ == name@,
            forall|j: int| 0 <= j < i ==> !answers_to(#[trigger] flags[j], name@, long),
        decreases sig.flags@.len() - i,
    {
        let f = &sig.flags[i];
        proof {
            assert(flags[i as int] == f@);
        }
        let hit = if long {
            text::same_text(f.long.as_str(), name)
        } else {
            match f.short {
                Some(c) => chars.len() > 0 && chars[0] == c,
                None => false,
            }
        };
        if hit {
            proof {
                flag_index_is_first(flags, name@, long);
                assert(answers_to(flags[i as int], name@, long));
            }
            return Ok(f);
        }
        i = i + 1;
    }
    proof {
        flag_index_is_first(flags, name@, long);
    }
    let mut names: Vec<String> = Vec::new();
    let mut k: usize = 0;
    while k < sig.flags.len()
        invariant
            k <= sig.flags@.len(),
            names@.len() == k,
            forall|j: int| 0 <= j < k ==> (#[trigger] names@[j])@ == sig.flags@[j].long@,
        decreases sig.flags@.len() - k,
    {
        names.push(sig.flags[k].long.clone());
        k = k + 1;
    }
    proof {
        assert(text::texts(names@) =~= long_names(flags));
    }
    let dashes = if long { "unknown flag `--" } else { "unknown flag `-" };
    let e = ShellError::new(ErrorKind::Binding, text::around(dashes, name, "`").as_str()).with_span(
        span,
    );
    match error::did_you_mean(name, &names) {
        Some(s) => Err(
            Stop::Fail(e.with_help(text::around("did you mean `--", s.as_str(), "`?").as_str())),
        ),
        None => {
            if sig.flags.len() == 0 {
                Err(
                    Stop::Fail(
                        e.with_help(
                            text::around("`", sig.name.as_str(), "` takes no flags").as_str(),
                        ),
                    ),
                )
            } else {
                Err(Stop::Fail(e))
            }
        },
    }
}

/// A cluster of short flags (`-iv`) stands for one flag per letter; a value
/// belongs to the last.
pub open spec fn expand_one(arg: ArgView) -> Seq<ArgView> {
    match arg {
        ArgView::Flag { name, long, span, value } => if !long && name.len() > 1 {
            Seq::new(
                name.len(),
                |k: int|
                    ArgView::Flag {
                        name: seq![name[k]],
                        long: false,
                        span,
                        value: if k == name.len() - 1 {
                            value
                        } else {
                            None
                        },
                    },
            )
        } else {
            seq![arg]
        },
        ArgView::Positional(_) => seq![arg],
    }
}

/// The arguments with every cluster of short flags taken apart.
pub open spec fn expanded(args: Seq<ArgView>) -> Seq<ArgView>
    decreases args.len(),
{
    if args.len() == 0 {
        Seq::empty()
    } else {
        expanded(args.drop_last()) + expand_one(args.last())
    }
}

fn clone_arg(arg: &Arg) -> (r: Arg)
    ensures
        r@ == arg@,
{
    match arg {
        Arg::Positional(e) => Arg::Positional(e.clone()),
        Arg::Flag { name, long, span, value } => Arg::Flag {
            name: name.clone(),
            long: *long,
            span: *span,
            value: match value {
                Some(e) => Some(e.clone()),
                None => None,
            },
        },
    }
}

fn push_expanded(out: &mut Vec<Arg>, arg: &Arg)
    ensures
        ast::args_view(final(out)@) == ast::args_view(old(out)@) + expand_one(arg@),
{
    let ghost before = ast::args_view(out@);
    if let Arg::Flag { name, long, span, value } = arg {
        let letters = text::to_chars(name.as_str());
        if !*long && letters.len() > 1 {
            let mut k: usize = 0;
            while k < letters.len()
                invariant
                    k <= letters@.len(),
                    letters@ == name@,
                    letters@.len() > 1,
                    arg@ == (ArgView::Flag {
                        name: name@,
                        long: false,
                        span: *span,
                        value: ast::opt_expr(*value),
                    }),
                    ast::args_view(out@) == before + expand_one(arg@).take(k as int),
                decreases letters@.len() - k,
            {
                let mut one = String::new();
                one.push(letters[k]);
                let v = if k == letters.len() - 1 {
                    match value {
                        Some(e) => Some(e.clone()),
                        None => None,
                    }
                } else {
                    None
                };
                let ghost prior = out@;
                let flag = Arg::Flag { name: one, long: false, span: *span, value: v };
                proof {
                    assert(one@ =~= seq![name@[k as int]]);
                    assert(flag@ == expand_one(arg@)[k as int]);
                    assert(ast::args_view(prior.push(flag)) =~= ast::args_view(prior).push(flag@));
                    assert(expand_one(arg@).take(k as int).push(flag@) =~= expand_one(arg@).take(
                        k + 1,
                    ));
                    assert((before + expand_one(arg@).take(k as int)).push(flag@) =~= before
                        + expand_one(arg@).take(k + 1));
                }
                out.push(flag);
                k = k + 1;
            }
            proof {
                assert(expand_one(arg@).take(letters@.len() as int) =~= expand_one(arg@));
            }
            return ;
        }
    }
    out.push(clone_arg(arg));
    proof {
        assert(ast::args_view(out@) =~= before + seq![arg@]);
    }
}

fn expand_args(args: &Vec<Arg>) -> (r: Vec<Arg>)
    ensures
        ast::args_view(r@) == expanded(ast::args_view(args@)),
{
    let ghost all = ast::args_view(args@);
    let mut out: Vec<Arg> = Vec::new();
    let mut i: usize = 0;
    proof {
        assert(ast::args_view(out@) =~= Seq::empty());
    }
    while i < args.len()
        invariant
            i <= args@.len(),
            all == ast::args_view(args@),
            ast::args_view(out@) == expanded(all.take(i as int)),
        decreases args@.len() - i,
    {
        push_expanded(&mut out, &args[i]);
        proof {
            assert(all.take(i + 1).drop_last() =~= all.take(i as int));
            assert(all.take(i + 1).last() == args@[i as int]@);
        }
        i = i + 1;
    }
    proof {
        assert(all.take(all.len() as int) =~= all);
    }
    out
}

/// What stands in a positional slot.
pub enum SlotView {
    Value(ValueView, Span),
    Closure(ClosureView, Span),
}

/// What has been gathered from the line so far.
pub struct GatheredView {
    pub slots: Seq<SlotView>,
    pub flags: Seq<(Seq<char>, ValueView)>,
    pub closures: Seq<(Seq<char>, NativeClosureView)>,
}

impl GatheredView {
    pub open spec fn with_slot(self, slot: SlotView) -> GatheredView {
        GatheredView { slots: self.slots.push(slot), ..self }
    }

    pub open spec fn with_flag(self, name: Seq<char>, v: ValueView) -> GatheredView {
        GatheredView { flags: value::inserted(self.flags, name, v), ..self }
    }

    /// A closure under a flag's name; the flag itself reads as null.
    pub open spec fn with_flag_closure(
        self,
        name: Seq<char>,
        c: ClosureView,
        scope: ScopeSeq,
    ) -> GatheredView {
        GatheredView {
            slots: self.slots,
            flags: value::inserted(self.flags, name, ValueView::Null),
            closures: self.closures.push(
                (name, NativeClosureView { closure: c, captured: scope }),
            ),
        }
    }
}

/// Where a value-taking flag at `i` has its value from: its own, or the next
/// argument where that is a positional; and how many arguments that takes up.
pub open spec fn flag_source(args: Seq<ArgView>, i: int, own: Option<ExprView>) -> (
    Option<ExprView>,
    int,
) {
    match own {
        Some(e) => (Some(e), i + 1),
        None => if i + 1 < args.len() {
            match args[i + 1] {
                ArgView::Positional(e) => (Some(e), i + 2),
                _ => (None, i + 1),
            }
        } else {
            (None, i + 1)
        },
    }
}

/// One argument of a call joins what has been gathered; and where to go on.
pub open spec fn gather_one(
    sig: SignatureView,
    args: Seq<ArgView>,
    i: int,
    g: GatheredView,
    scope: ScopeSeq,
    replies: ReplySeq,
) -> Result<(GatheredView, int), StopView> {
    match args[i] {
        ArgView::Positional(e) => match e {
            ExprView::Closure(c, span) => Ok((g.with_slot(SlotView::Closure(*c, span)), i + 1)),
            _ => match arg_value(e, scope, replies) {
                Ok(v) => Ok((g.with_slot(SlotView::Value(v, ast::span_of_expr(e))), i + 1)),
                Err(stop) => Err(stop),
            },
        },
        ArgView::Flag { name, long, span, value } => match flag_index(sig.flags, name, long) {
            None => Err(unknown_flag(sig, name, long, span)),
            Some(k) => {
                let f = sig.flags[k];
                match f.shape {
                    None => if value is Some {
                        Err(
                            StopView::Fail(
                                binding_error(
                                    "`--"@ + f.long + "` is a switch and takes no value"@,
                                    span,
                                ),
                            ),
                        )
                    } else {
                        Ok((g.with_flag(f.long, ValueView::Bool(true)), i + 1))
                    },
                    Some(shape) => match flag_source(args, i, value) {
                        (None, _) => Err(
                            StopView::Fail(
                                binding_error("flag `--"@ + f.long + "` needs a value"@, span),
                            ),
                        ),
                        (Some(e), next) => match e {
                            ExprView::Closure(c, _) => Ok(
                                (g.with_flag_closure(f.long, *c, scope), next),
                            ),
                            _ => match arg_value(e, scope, replies) {
                                Err(stop) => Err(stop),
                                Ok(raw) => match coerced(
                                    raw,
                                    shape,
                                    ast::span_of_expr(e),
                                    "`--"@ + f.long + "`"@,
                                    replies,
                                ) {
                                    Err(stop) => Err(stop),
                                    Ok(v) => Ok((g.with_flag(f.long, v), next)),
                                },
                            },
                        },
                    },
                }
            },
        },
    }
}

/// What a call gives, argument by argument from the left.
pub open spec fn gathered(
    sig: SignatureView,
    args: Seq<ArgView>,
    i: int,
    g: GatheredView,
    scope: ScopeSeq,
    replies: ReplySeq,
) -> Result<GatheredView, StopView>
    decreases args.len() - i,
{
    if !(0 <= i < args.len()) {
        Ok(g)
    } else {
        match gather_one(sig, args, i, g, scope, replies) {
            Err(e) => Err(e),
            Ok((more, next)) => if i < next {
                gathered(sig, args, next, more, scope, replies)
            } else {
                Ok(more)
            },
        }
    }
}

/// Head barewords left over after command-name resolution come before the
/// other positionals.
pub open spec fn word_slots(words: Seq<WordView>) -> Seq<SlotView> {
    words.map_values(|w: WordView| SlotView::Value(word_value(w.node), w.span))
}

pub open spec fn slot_span(slot: SlotView) -> Span {
    match slot {
        SlotView::Value(_, span) => span,
        SlotView::Closure(_, span) => span,
    }
}

/// A slot as a value; a closure has none and reads as null.
pub open spec fn slot_value(slot: SlotView) -> ValueView {
    match slot {
        SlotView::Value(v, _) => v,
        SlotView::Closure(_, _) => ValueView::Null,
    }
}

pub open spec fn usage_advice(sig: SignatureView) -> Seq<char> {
    "run `"@ + sig.name + " --help` for usage"@
}

/// The declared parameters that are bound by position.
pub open spec fn declared(sig: SignatureView) -> Seq<PosArgView> {
    sig.required + sig.optional
}

/// The values and closures of the first `n` declared parameters. A parameter
/// that no slot is left for is an error where it is required.
pub open spec fn bound_params(
    sig: SignatureView,
    n: nat,
    slots: Seq<SlotView>,
    closures: Seq<(Seq<char>, NativeClosureView)>,
    scope: ScopeSeq,
    head: Span,
    replies: ReplySeq,
) -> Result<(Seq<ValueView>, Seq<(Seq<char>, NativeClosureView)>), StopView>
    decreases n,
{
    if n == 0 {
        Ok((Seq::empty(), closures))
    } else {
        let k = (n - 1) as nat;
        let p = declared(sig)[k as int];
        match bound_params(sig, k, slots, closures, scope, head, replies) {
            Err(e) => Err(e),
            Ok((values, cs)) => if k >= slots.len() {
                if k < sig.required.len() {
                    Err(
                        StopView::Fail(
                            binding_error(
                                "missing required argument `"@ + p.name + "`"@,
                                head,
                            ).helped(usage_advice(sig)),
                        ),
                    )
                } else {
                    Ok((values, cs))
                }
            } else {
                match slots[k as int] {
                    SlotView::Closure(c, _) => Ok(
                        (
                            values.push(ValueView::Null),
                            cs.push((p.name, NativeClosureView { closure: c, captured: scope })),
                        ),
                    ),
                    SlotView::Value(v, span) => match coerced(
                        v,
                        p.shape,
                        span,
                        "`"@ + p.name + "`"@,
                        replies,
                    ) {
                        Ok(x) => Ok((values.push(x), cs)),
                        Err(e) => Err(e),
                    },
                }
            },
        }
    }
}

/// The values of the first `n` slots for a rest parameter.
pub open spec fn bound_rest(
    rest: PosArgView,
    slots: Seq<SlotView>,
    n: nat,
    replies: ReplySeq,
) -> Result<Seq<ValueView>, StopView>
    decreases n,
{
    if n == 0 {
        Ok(Seq::empty())
    } else {
        match bound_rest(rest, slots, (n - 1) as nat, replies) {
            Err(e) => Err(e),
            Ok(values) => match coerced(
                slot_value(slots[n - 1]),
                rest.shape,
                slot_span(slots[n - 1]),
                "`"@ + rest.name + "`"@,
                replies,
            ) {
                Ok(x) => Ok(values.push(x)),
                Err(e) => Err(e),
            },
        }
    }
}

/// Binding a call to a signature: flags are matched (with did-you-mean), a
/// value-taking flag without `=` takes the next positional, everything is
/// evaluated and coerced, and the number of arguments is checked.
pub open spec fn bound_call(
    sig: SignatureView,
    leading: Seq<WordView>,
    call: CallView,
    scope: ScopeSeq,
    replies: ReplySeq,
) -> Result<BoundCallView, StopView> {
    let start = GatheredView {
        slots: word_slots(leading),
        flags: Seq::empty(),
        closures: Seq::empty(),
    };
    let head = ast::words_span_of(call);
    match gathered(sig, expanded(call.args), 0, start, scope, replies) {
        Err(e) => Err(e),
        Ok(g) => {
            let count = declared(sig).len();
            match bound_params(sig, count, g.slots, g.closures, scope, head, replies) {
                Err(e) => Err(e),
                Ok((values, closures)) => if g.slots.len() <= count {
                    Ok(
                        BoundCallView {
                            head_span: head,
                            positionals: values,
                            flags: g.flags,
                            closures,
                        },
                    )
                } else {
                    let extra = g.slots.skip(count as int);
                    match sig.rest {
                        None => Err(
                            StopView::Fail(
                                binding_error(
                                    "`"@ + sig.name + "` takes at most "@ + text::numeral(count)
                                        + " positional arguments"@,
                                    slot_span(extra[0]),
                                ).helped(usage_advice(sig)),
                            ),
                        ),
                        Some(rest) => match bound_rest(rest, extra, extra.len(), replies) {
                            Err(e) => Err(e),
                            Ok(more) => Ok(
                                BoundCallView {
                                    head_span: head,
                                    positionals: values + more,
                                    flags: g.flags,
                                    closures,
                                },
                            ),
                        },
                    }
                },
            }
        },
    }
}

enum Slot {
    Value(Value, Span),
    Closure(Closure, Span),
}

impl View for Slot {
    type V = SlotView;

    closed spec fn view(&self) -> SlotView {
        match *self {
            Slot::Value(v, span) => SlotView::Value(v@, span),
            Slot::Closure(c, span) => SlotView::Closure(c@, span),
        }
    }
}

spec fn slots_view(slots: Seq<Slot>) -> Seq<SlotView> {
    slots.map_values(|s: Slot| s@)
}

struct Gathered {
    slots: Vec<Slot>,
    flags: Fields,
    closures: Vec<(String, NativeClosure)>,
}

impl View for Gathered {
    type V = GatheredView;

    closed spec fn view(&self) -> GatheredView {
        GatheredView {
            slots: slots_view(self.slots@),
            flags: self.flags@,
            closures: closures_view(self.closures@),
        }
    }
}

fn push_closure(
    closures: &mut Vec<(String, NativeClosure)>,
    name: String,
    c: Closure,
    scope: &Scope,
)
    ensures
        closures_view(final(closures)@) == closures_view(old(closures)@).push(
            (name@, NativeClosureView { closure: c@, captured: scope@ }),
        ),
{
    let native = NativeClosure::new(c, scope.clone());
    closures.push((name, native));
    proof {
        assert(closures_view(closures@) =~= closures_view(old(closures)@).push((name@, native@)));
    }
}

fn gather_positional(g: &mut Gathered, e: &Expr, scope: &Scope, replies: &Replies) -> (r: Result<
    (),
    Stop,
>)
    ensures
        match e@ {
            ExprView::Closure(c, span) => r is Ok && final(g)@ == old(g)@.with_slot(
                SlotView::Closure(*c, span),
            ),
            _ => match arg_value(e@, scope@, replies@) {
                Ok(v) => r is Ok && final(g)@ == old(g)@.with_slot(
                    SlotView::Value(v, ast::span_of_expr(e@)),
                ),
                Err(stop) => r matches Err(x) && x@ == stop,
            },
        },
{
    let slot = match e.as_closure() {
        Some(c) => Slot::Closure(c.clone(), e.span()),
        None => match eval_expr(e, scope, replies) {
            Ok(v) => Slot::Value(v, e.span()),
            Err(stop) => {
                return Err(stop);
            },
        },
    };
    g.slots.push(slot);
    proof {
        assert(g@.slots =~= old(g)@.slots.push(slot@));
    }
    Ok(())
}

/// The value of a value-taking flag.
fn gather_flag_value(
    g: &mut Gathered,
    long: &String,
    shape: Shape,
    e: &Expr,
    scope: &Scope,
    replies: &Replies,
) -> (r: Result<(), Stop>)
    ensures
        match e@ {
            ExprView::Closure(c, _) => r is Ok && final(g)@ == old(g)@.with_flag_closure(
                long@,
                *c,
                scope@,
            ),
            _ => match arg_value(e@, scope@, replies@) {
                Err(stop) => r matches Err(x) && x@ == stop,
                Ok(raw) => match coerced(
                    raw,
                    shape,
                    ast::span_of_expr(e@),
                    "`--"@ + long@ + "`"@,
                    replies@,
                ) {
                    Err(stop) => r matches Err(x) && x@ == stop,
                    Ok(v) => r is Ok && final(g)@ == old(g)@.with_flag(long@, v),
                },
            },
        },
{
    match e.as_closure() {
        Some(c) => {
            push_closure(&mut g.closures, long.clone(), c.clone(), scope);
            g.flags.insert(long.clone(), Value::Null);
            Ok(())
        },
        None => {
            let raw = match eval_expr(e, scope, replies) {
                Ok(v) => v,
                Err(stop) => {
                    return Err(stop);
                },
            };
            let what = text::around("`--", long.as_str(), "`");
            match coerce(raw, shape, e.span(), what.as_str(), replies) {
                Ok(v) => {
                    g.flags.insert(long.clone(), v);
                    Ok(())
                },
                Err(stop) => Err(stop),
            }
        },
    }
}

fn gather_arg(
    sig: &Signature,
    args: &Vec<Arg>,
    i: usize,
    g: &mut Gathered,
    scope: &Scope,
    replies: &Replies,
) -> (r: Result<usize, Stop>)
    requires
        i < args@.len(),
    ensures
        match gather_one(sig@, ast::args_view(args@), i as int, old(g)@, scope@, replies@) {
            Ok((more, next)) => r matches Ok(k) && k == next && i < k <= args@.len() && final(g)@
                == more,
            Err(stop) => r matches Err(x) && x@ == stop,
        },
{
    let n: usize = args.len();
    let ghost all = ast::args_view(args@);
    proof {
        assert(all[i as int] == args@[i as int]@);
    }
    match &args[i] {
        Arg::Positional(e) => match gather_positional(g, e, scope, replies) {
            Ok(()) => Ok(i + 1),
            Err(stop) => Err(stop),
        },
        Arg::Flag { name, long, span, value } => {
            let spec = match find_flag(sig, name.as_str(), *long, *span) {
                Ok(f) => f,
                Err(stop) => {
                    return Err(stop);
                },
            };
            match spec.shape {
                None => {
                    if value.is_some() {
                        return Err(
                            Stop::Fail(
                                ShellError::new(
                                    ErrorKind::Binding,
                                    text::around(
                                        "`--",
                                        spec.long.as_str(),
                                        "` is a switch and takes no value",
                                    ).as_str(),
                                ).with_span(*span),
                            ),
                        );
                    }
                    g.flags.insert(spec.long.clone(), Value::Bool(true));
                    Ok(i + 1)
                },
                Some(shape) => {
                    if let Some(e) = value {
                        return match gather_flag_value(g, &spec.long, shape, e, scope, replies) {
                            Ok(()) => Ok(i + 1),
                            Err(stop) => Err(stop),
                        };
                    }
                    if i + 1 < n {
                        proof {
                            assert(all[i + 1] == args@[i + 1]@);
                        }
                        if let Arg::Positional(e) = &args[i + 1] {
                            return match gather_flag_value(
                                g,
                                &spec.long,
                                shape,
                                e,
                                scope,
                                replies,
                            ) {
                                Ok(()) => Ok(i + 2),
                                Err(stop) => Err(stop),
                            };
                        }
                    }
                    Err(
                        Stop::Fail(
                            ShellError::new(
                                ErrorKind::Binding,
                                text::around(
                                    "flag `--",
                                    spec.long.as_str(),
                                    "` needs a value",
                                ).as_str(),
                            ).with_span(*span),
                        ),
                    )
                },
            }
        },
    }
}

fn gather(
    sig: &Signature,
    leading: &[Spanned<String>],
    args: &Vec<Arg>,
    scope: &Scope,
    replies: &Replies,
) -> (r: Result<Gathered, Stop>)
    ensures
        ({
            let start = GatheredView {
                slots: word_slots(ast::words_view(leading@)),
                flags: Seq::empty(),
                closures: Seq::empty(),
            };
            match gathered(sig@, ast::args_view(args@), 0, start, scope@, replies@) {
                Ok(g) => r matches Ok(x) && x@ == g,
                Err(stop) => r matches Err(x) && x@ == stop,
            }
        }),
{
    let mut slots: Vec<Slot> = Vec::new();
    let mut w: usize = 0;
    while w < leading.len()
        invariant
            w <= leading@.len(),
            slots@.len() == w,
            forall|j: int|
                0 <= j < w ==> (#[trigger] slots@[j])@ == SlotView::Value(
                    word_value(leading@[j].node@),
                    leading@[j].span,
                ),
        decreases leading@.len() - w,
    {
        slots.push(Slot::Value(eval_word(&leading[w].node), leading[w].span));
        w = w + 1;
    }
    let mut g = Gathered { slots, flags: Fields::new(), closures: Vec::new() };
    let ghost start = GatheredView {
        slots: word_slots(ast::words_view(leading@)),
        flags: Seq::empty(),
        closures: Seq::empty(),
    };
    let ghost all = ast::args_view(args@);
    proof {
        assert(g@.slots =~= start.slots);
        assert(g@.flags =~= start.flags);
        assert(g@.closures =~= start.closures);
    }
    let mut i: usize = 0;
    while i < args.len()
        invariant
            i <= args@.len(),
            all == ast::args_view(args@),
            gathered(sig@, all, 0, start, scope@, replies@) == gathered(
                sig@,
                all,
                i as int,
                g@,
                scope@,
                replies@,
            ),
            start == (GatheredView {
                slots: word_slots(ast::words_view(leading@)),
                flags: Seq::empty(),
                closures: Seq::empty(),
            }),
        decreases args@.len() - i,
    {
        match gather_arg(sig, args, i, &mut g, scope, replies) {
            Ok(next) => {
                i = next;
            },
            Err(stop) => {
                return Err(stop);
            },
        }
    }
    Ok(g)
}

fn usage_help(sig: &Signature) -> (r: String)
    ensures
        r@ == usage_advice(sig@),
{
    text::around("run `", sig.name.as_str(), " --help` for usage")
}

/// The declared parameter at an index.
fn declared_at(sig: &Signature, k: usize) -> (r: &PosArg)
    requires
        k < declared(sig@).len(),
    ensures
        r@ == declared(sig@)[k as int],
{
    if k < sig.required.len() {
        proof {
            assert(declared(sig@)[k as int] == sig@.required[k as int]);
        }
        &sig.required[k]
    } else {
        proof {
            assert(declared(sig@)[k as int] == sig@.optional[k - sig.required@.len()]);
        }
        &sig.optional[k - sig.required.len()]
    }
}

fn bind_params(
    sig: &Signature,
    count: usize,
    slots: &Vec<Slot>,
    named: Vec<(String, NativeClosure)>,
    scope: &Scope,
    head: Span,
    replies: &Replies,
) -> (r: Result<(Vec<Value>, Vec<(String, NativeClosure)>), Stop>)
    requires
        count == declared(sig@).len(),
    ensures
        match bound_params(
            sig@,
            count as nat,
            slots_view(slots@),
            closures_view(named@),
            scope@,
            head,
            replies@,
        ) {
            Ok((values, cs)) => r matches Ok(x) && value::values_view(x.0@) == values
                && closures_view(x.1@) == cs,
            Err(stop) => r matches Err(x) && x@ == stop,
        },
{
    let ghost given = closures_view(named@);
    let ghost all = slots_view(slots@);
    let mut closures = named;
    let mut bound: Vec<Value> = Vec::new();
    let mut k: usize = 0;
    proof {
        assert(value::values_view(bound@) =~= Seq::empty());
    }
    while k < count
        invariant
            k <= count,
            count == declared(sig@).len(),
            all == slots_view(slots@),
            given == closures_view(named@),
            bound_params(sig@, k as nat, all, given, scope@, head, replies@) == Ok::<
                (Seq<ValueView>, Seq<(Seq<char>, NativeClosureView)>),
                StopView,
            >((value::values_view(bound@), closures_view(closures@))),
        decreases count - k,
    {
        let p = declared_at(sig, k);
        let ghost before = bound@;
        if k >= slots.len() {
            if k < sig.required.len() {
                proof {
                    params_stop(sig@, k as nat + 1, count as nat, all, given, scope@, head, replies@);
                }
                return Err(
                    Stop::Fail(
                        ShellError::new(
                            ErrorKind::Binding,
                            text::around(
                                "missing required argument `",
                                p.name.as_str(),
                                "`",
                            ).as_str(),
                        ).with_span(head).with_help(usage_help(sig).as_str()),
                    ),
                );
            }
        } else {
            proof {
                assert(all[k as int] == slots@[k as int]@);
            }
            match &slots[k] {
                Slot::Closure(c, _) => {
                    push_closure(&mut closures, p.name.clone(), c.clone(), scope);
                    bound.push(Value::Null);
                    proof {
                        assert(value::values_view(bound@) =~= value::values_view(before).push(
                            ValueView::Null,
                        ));
                    }
                },
                Slot::Value(v, span) => {
                    let what = text::around("`", p.name.as_str(), "`");
                    match coerce(v.clone(), p.shape, *span, what.as_str(), replies) {
                        Ok(x) => {
                            bound.push(x);
                            proof {
                                assert(value::values_view(bound@) =~= value::values_view(
                                    before,
                                ).push(x@));
                            }
                        },
                        Err(stop) => {
                            proof {
                                params_stop(
                                    sig@,
                                    k as nat + 1,
                                    count as nat,
                                    all,
                                    given,
                                    scope@,
                                    head,
                                    replies@,
                                );
                            }
                            return Err(stop);
                        },
                    }
                },
            }
        }
        k = k + 1;
    }
    Ok((bound, closures))
}

/// A failure among the first parameters is the failure of all.
proof fn params_stop(
    sig: SignatureView,
    k: nat,
    n: nat,
    slots: Seq<SlotView>,
    closures: Seq<(Seq<char>, NativeClosureView)>,
    scope: ScopeSeq,
    head: Span,
    replies: ReplySeq,
)
    requires
        k <= n,
        bound_params(sig, k, slots, closures, scope, head, replies) is Err,
    ensures
        bound_params(sig, n, slots, closures, scope, head, replies) == bound_params(
            sig,
            k,
            slots,
            closures,
            scope,
            head,
            replies,
        ),
    decreases n,
{
    if k < n {
        params_stop(sig, k, (n - 1) as nat, slots, closures, scope, head, replies);
    }
}

fn bind_rest(rest: &PosArg, slots: &Vec<Slot>, from: usize, replies: &Replies) -> (r: Result<
    Vec<Value>,
    Stop,
>)
    requires
        from <= slots@.len(),
    ensures
        match bound_rest(
            rest@,
            slots_view(slots@).skip(from as int),
            (slots@.len() - from) as nat,
            replies@,
        ) {
            Ok(values) => r matches Ok(x) && value::values_view(x@) == values,
            Err(stop) => r matches Err(x) && x@ == stop,
        },
{
    let ghost extra = slots_view(slots@).skip(from as int);
    let mut out: Vec<Value> = Vec::new();
    let mut k: usize = from;
    proof {
        assert(value::values_view(out@) =~= Seq::empty());
    }
    while k < slots.len()
        invariant
            from <= k <= slots@.len(),
            extra == slots_view(slots@).skip(from as int),
            bound_rest(rest@, extra, (k - from) as nat, replies@) == Ok::<
                Seq<ValueView>,
                StopView,
            >(value::values_view(out@)),
        decreases slots@.len() - k,
    {
        proof {
            assert(extra[k - from] == slots@[k as int]@);
        }
        let ghost before = out@;
        let (v, span) = match &slots[k] {
            Slot::Value(v, span) => (v.clone(), *span),
            Slot::Closure(_, span) => (Value::Null, *span),
        };
        let what = text::around("`", rest.name.as_str(), "`");
        match coerce(v, rest.shape, span, what.as_str(), replies) {
            Ok(x) => {
                out.push(x);
                proof {
                    assert(value::values_view(out@) =~= value::values_view(before).push(x@));
                }
            },
            Err(stop) => {
                proof {
                    rest_stop(
                        rest@,
                        extra,
                        (k + 1 - from) as nat,
                        (slots@.len() - from) as nat,
                        replies@,
                    );
                }
                return Err(stop);
            },
        }
        k = k + 1;
    }
    Ok(out)
}

proof fn rest_stop(rest: PosArgView, slots: Seq<SlotView>, k: nat, n: nat, replies: ReplySeq)
    requires
        k <= n,
        bound_rest(rest, slots, k, replies) is Err,
    ensures
        bound_rest(rest, slots, n, replies) == bound_rest(rest, slots, k, replies),
    decreases n,
{
    if k < n {
        rest_stop(rest, slots, k, (n - 1) as nat, replies);
    }
}

/// Bind a parsed call against a signature: match flags (with did-you-mean),
/// let value-taking flags without `=` consume the next positional, evaluate
/// and coerce everything, and enforce arity.
///
/// `leading_words` are head barewords left over after command-name
/// resolution; they are bound (in order) before the other positionals.
pub fn bind(
    sig: &Signature,
    leading_words: &[Spanned<String>],
    call: &Call,
    scope: &Scope,
    replies: &Replies,
) -> (r: Result<BoundCall, Stop>)
    requires
        sig.required@.len() + sig.optional@.len() <= usize::MAX,
    ensures
        match bound_call(sig@, ast::words_view(leading_words@), call@, scope@, replies@) {
            Ok(b) => r matches Ok(x) && x@ == b,
            Err(stop) => r matches Err(x) && x@ == stop,
        },
{
    let args = expand_args(&call.args);
    let g = match gather(sig, leading_words, &args, scope, replies) {
        Ok(g) => g,
        Err(stop) => {
            return Err(stop);
        },
    };
    let head = call.words_span();
    let count: usize = sig.required.len() + sig.optional.len();
    let slots = g.slots;
    let flags = g.flags;
    let (values, closures) = match bind_params(
        sig,
        count,
        &slots,
        g.closures,
        scope,
        head,
        replies,
    ) {
        Ok(x) => x,
        Err(stop) => {
            return Err(stop);
        },
    };
    if slots.len() <= count {
        return Ok(BoundCall { head_span: head, positionals: values, flags, closures });
    }
    let ghost extra = slots_view(slots@).skip(count as int);
    match &sig.rest {
        None => {
            proof {
                assert(extra[0] == slots@[count as int]@);
            }
            let span = match &slots[count] {
                Slot::Value(_, span) => *span,
                Slot::Closure(_, span) => *span,
            };
            let mut m = text::around("`", sig.name.as_str(), "` takes at most ");
            text::push_number(&mut m, count as u64);
            m.append(" positional arguments");
            Err(
                Stop::Fail(
                    ShellError::new(ErrorKind::Binding, m.as_str()).with_span(span).with_help(
                        usage_help(sig).as_str(),
                    ),
                ),
            )
        },
        Some(rest) => match bind_rest(rest, &slots, count, replies) {
            Ok(more) => {
                let mut positionals = values;
                let mut more = more;
                let ghost tail = more@;
                let ghost front = positionals@;
                positionals.append(&mut more);
                proof {
                    assert(value::values_view(positionals@) =~= value::values_view(front)
                        + value::values_view(tail));
                }
                Ok(BoundCall { head_span: head, positionals, flags, closures })
            },
            Err(stop) => Err(stop),
        },
    }
}

/// What is gathered from the rest of a line does not depend on what came
/// before it.
proof fn gathered_shift(
    sig: SignatureView,
    before: Seq<ArgView>,
    args: Seq<ArgView>,
    i: int,
    g: GatheredView,
    scope: ScopeSeq,
    replies: ReplySeq,
)
    requires
        0 <= i,
    ensures
        gathered(sig, before + args, before.len() + i, g, scope, replies) == gathered(
            sig,
            args,
            i,
            g,
            scope,
            replies,
        ),
    decreases args.len() - i,
{
    if i < args.len() {
        let all = before + args;
        let j = before.len() + i;
        assert(all[j] == args[i]);
        if i + 1 < args.len() {
            assert(all[j + 1] == args[i + 1]);
        }
        match gather_one(sig, args, i, g, scope, replies) {
            Ok((more, next)) => {
                assert(gather_one(sig, all, j, g, scope, replies) == Ok::<
                    (GatheredView, int),
                    StopView,
                >((more, before.len() + next)));
                if i < next {
                    gathered_shift(sig, before, args, next, more, scope, replies);
                }
            },
            Err(_) => {},
        }
    }
}

/// `--flag=value` and `--flag value` bind the same, whatever follows.
pub proof fn eq_and_space_values_agree(
    sig: SignatureView,
    name: Seq<char>,
    span: Span,
    value: ExprView,
    rest: Seq<ArgView>,
    g: GatheredView,
    scope: ScopeSeq,
    replies: ReplySeq,
)
    requires
        flag_index(sig.flags, name, true) matches Some(k) && sig.flags[k].shape is Some,
    ensures
        gathered(
            sig,
            seq![ArgView::Flag { name, long: true, span, value: Some(value) }] + rest,
            0,
            g,
            scope,
            replies,
        ) == gathered(
            sig,
            seq![
                ArgView::Flag { name, long: true, span, value: None },
                ArgView::Positional(value),
            ] + rest,
            0,
            g,
            scope,
            replies,
        ),
{
    let one = seq![ArgView::Flag { name, long: true, span, value: Some(value) }];
    let two = seq![
        ArgView::Flag { name, long: true, span, value: None },
        ArgView::Positional(value),
    ];
    assert((one + rest)[0] == one[0]);
    assert((two + rest)[0] == two[0]);
    assert((two + rest)[1] == two[1]);
    match gather_one(sig, one + rest, 0, g, scope, replies) {
        Ok((more, _)) => {
            gathered_shift(sig, one, rest, 0, more, scope, replies);
            gathered_shift(sig, two, rest, 0, more, scope, replies);
        },
        Err(_) => {},
    }
}

/// Putting one argument in the place of another leaves the rest as it was,
/// where neither is a cluster.
proof fn expanded_differs_at_one(args: Seq<ArgView>, i: int, arg: ArgView)
    requires
        0 <= i < args.len(),
        expand_one(args[i]) == seq![args[i]],
        expand_one(arg) == seq![arg],
    ensures
        ({
            let one = expanded(args);
            let two = expanded(args.update(i, arg));
            let p = expanded(args.take(i)).len() as int;
            &&& 0 <= p < one.len()
            &&& one[p] == args[i]
            &&& two == one.update(p, arg)
        }),
    decreases args.len(),
{
    let init = args.drop_last();
    let changed = args.update(i, arg);
    if i == args.len() - 1 {
        assert(args.take(i) =~= init);
        assert(changed.drop_last() =~= init);
        assert(expanded(changed) =~= expanded(args).update(expanded(init).len() as int, arg));
    } else {
        expanded_differs_at_one(init, i, arg);
        assert(init.take(i) =~= args.take(i));
        assert(changed.drop_last() =~= init.update(i, arg));
        let p = expanded(args.take(i)).len() as int;
        assert(expanded(changed) =~= expanded(args).update(p, arg));
    }
}

/// A short flag in the place of the long one it stands for gathers the same.
proof fn gathered_by_either_name(
    sig: SignatureView,
    args: Seq<ArgView>,
    p: int,
    c: char,
    name: Seq<char>,
    span: Span,
    value: Option<ExprView>,
    i: int,
    g: GatheredView,
    scope: ScopeSeq,
    replies: ReplySeq,
)
    requires
        0 <= i,
        0 <= p < args.len(),
        args[p] == (ArgView::Flag { name: seq![c], long: false, span, value }),
        flag_index(sig.flags, seq![c], false) is Some,
        flag_index(sig.flags, seq![c], false) == flag_index(sig.flags, name, true),
    ensures
        gathered(
            sig,
            args.update(p, ArgView::Flag { name, long: true, span, value }),
            i,
            g,
            scope,
            replies,
        ) == gathered(sig, args, i, g, scope, replies),
    decreases args.len() - i,
{
    if i < args.len() {
        let other = args.update(p, ArgView::Flag { name, long: true, span, value });
        assert(gather_one(sig, other, i, g, scope, replies) == gather_one(
            sig,
            args,
            i,
            g,
            scope,
            replies,
        )) by {
            if i + 1 < args.len() && i + 1 != p {
                assert(other[i + 1] == args[i + 1]);
            }
            if i != p {
                assert(other[i] == args[i]);
            }
        }
        match gather_one(sig, args, i, g, scope, replies) {
            Ok((more, next)) => {
                if i < next {
                    gathered_by_either_name(
                        sig,
                        args,
                        p,
                        c,
                        name,
                        span,
                        value,
                        next,
                        more,
                        scope,
                        replies,
                    );
                }
            },
            Err(_) => {},
        }
    }
}

/// A flag binds the same under its letter and under its long name (`-l 5` and
/// `--limit 5`), wherever it stands in a call and whatever stands around it.
pub proof fn short_and_long_flags_agree(
    sig: SignatureView,
    leading: Seq<WordView>,
    call: CallView,
    i: int,
    c: char,
    name: Seq<char>,
    span: Span,
    value: Option<ExprView>,
    scope: ScopeSeq,
    replies: ReplySeq,
)
    requires
        0 <= i < call.args.len(),
        call.args[i] == (ArgView::Flag { name: seq![c], long: false, span, value }),
        flag_index(sig.flags, seq![c], false) is Some,
        flag_index(sig.flags, seq![c], false) == flag_index(sig.flags, name, true),
    ensures
        bound_call(
            sig,
            leading,
            (CallView {
                words: call.words,
                args: call.args.update(i, ArgView::Flag { name, long: true, span, value }),
                span: call.span,
            }),
            scope,
            replies,
        ) == bound_call(sig, leading, call, scope, replies),
{
    let arg = ArgView::Flag { name, long: true, span, value };
    expanded_differs_at_one(call.args, i, arg);
    let start = GatheredView {
        slots: word_slots(leading),
        flags: Seq::empty(),
        closures: Seq::empty(),
    };
    gathered_by_either_name(
        sig,
        expanded(call.args),
        expanded(call.args.take(i)).len() as int,
        c,
        name,
        span,
        value,
        0,
        start,
        scope,
        replies,
    );
}

} // verus!
