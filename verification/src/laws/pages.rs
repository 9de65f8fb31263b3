//! What help pages tell.

use crate::laws::showing;
use crate::signature;
use crate::signature::{FlagSpecView, PosArgView, Shape, SignatureView};
use crate::text;
use vstd::prelude::*;

verus! {

/// The names of parameters, each between two texts, from one on.
pub open spec fn between(args: Seq<PosArgView>, open: Seq<char>, close: Seq<char>, i: int) -> Seq<
    char,
>
    decreases args.len() - i,
{
    if !(0 <= i < args.len()) {
        Seq::empty()
    } else {
        open + args[i].name + close + between(args, open, close, i + 1)
    }
}

proof fn brackets(args: Seq<PosArgView>, open: Seq<char>, close: Seq<char>)
    ensures
        signature::bracketed(args, open, close) == between(args, open, close, 0),
    decreases args.len(),
{
    if args.len() > 0 {
        let init = args.drop_last();
        brackets(init, open, close);
        one_more(init, args.last(), open, close, 0);
        assert(init.push(args.last()) =~= args);
        assert(signature::bracketed(args, open, close) =~= between(args, open, close, 0));
    }
}

proof fn one_more(
    args: Seq<PosArgView>,
    p: PosArgView,
    open: Seq<char>,
    close: Seq<char>,
    i: int,
)
    requires
        0 <= i <= args.len(),
    ensures
        between(args.push(p), open, close, i) == between(args, open, close, i) + (open + p.name
            + close),
    decreases args.len() - i,
{
    let all = args.push(p);
    if i < args.len() {
        one_more(args, p, open, close, i + 1);
        assert(all[i] == args[i]);
        assert(between(all, open, close, i) =~= between(args, open, close, i) + (open + p.name
            + close));
    } else {
        assert(all[i] == p);
        assert(between(all, open, close, i + 1) =~= Seq::empty());
        assert(between(all, open, close, i) =~= between(args, open, close, i) + (open + p.name
            + close));
    }
}

/// The usage of a command is its name, its required parameters in angle brackets, the
/// optional ones in square brackets, the rest with dots, and a note where it has flags.
pub proof fn usage_names_the_parameters(sig: SignatureView)
    ensures
        signature::usage_text(sig) == "\x1b[36m"@ + sig.name + "\x1b[0m"@ + between(
            sig.required,
            " <"@,
            ">"@,
            0,
        ) + between(sig.optional, " ["@, "]"@, 0) + (match sig.rest {
            Some(p) => " ["@ + p.name + "...]"@,
            None => Seq::empty(),
        }) + (if sig.flags.len() > 0 {
            " [flags]"@
        } else {
            Seq::empty()
        }),
{
    brackets(sig.required, " <"@, ">"@);
    brackets(sig.optional, " ["@, "]"@);
    let said = "\x1b[36m"@ + sig.name + "\x1b[0m"@ + between(sig.required, " <"@, ">"@, 0)
        + between(sig.optional, " ["@, "]"@, 0) + (match sig.rest {
        Some(p) => " ["@ + p.name + "...]"@,
        None => Seq::empty(),
    }) + (if sig.flags.len() > 0 {
        " [flags]"@
    } else {
        Seq::empty()
    });
    assert(signature::usage_text(sig) =~= said);
}

/// A text filled up with spaces to a number of characters, as it is where it is
/// longer.
pub open spec fn filled(t: Seq<char>, s: Seq<char>, n: nat) -> bool {
    &&& t.len() >= s.len()
    &&& t.take(s.len() as int) == s
    &&& forall|k: int| s.len() <= k < t.len() ==> #[trigger] t[k] == ' '
    &&& t.len() == if s.len() < n {
        n
    } else {
        s.len()
    }
}

proof fn filling(s: Seq<char>, n: nat)
    ensures
        filled(signature::padded(s, n), s, n),
{
    assert(signature::padded(s, n).take(s.len() as int) =~= s);
}

/// What a shape is called.
pub open spec fn called(shape: Shape) -> Seq<char> {
    match shape {
        Shape::Any => "any"@,
        Shape::Str => "str"@,
        Shape::Int => "int"@,
        Shape::Float => "float"@,
        Shape::Bool => "bool"@,
    }
}

/// The line of a parameter: its name, what shape it takes, and what it is for, in
/// columns.
pub open spec fn tells_parameter(line: Seq<char>, p: PosArgView) -> bool {
    exists|name: Seq<char>, kind: Seq<char>|
        #![trigger filled(name, p.name, 12), filled(kind, called(p.shape), 7)]
        filled(name, p.name, 12) && filled(kind, called(p.shape), 7) && line == "  \x1b[36m"@
            + name + "\x1b[0m \x1b[2m"@ + kind + "\x1b[0m "@ + p.desc + "\n"@
}

/// How a flag is written: its long name, its letter, and the shape of its value.
pub open spec fn flag_written(f: FlagSpecView) -> Seq<char> {
    "--"@ + f.long + (match f.short {
        Some(c) => ", -"@ + seq![c],
        None => Seq::empty(),
    }) + (match f.shape {
        Some(shape) => " <"@ + called(shape) + ">"@,
        None => Seq::empty(),
    })
}

/// The line of a flag: how it is written, and what it is for, in columns.
pub open spec fn tells_flag(line: Seq<char>, f: FlagSpecView) -> bool {
    exists|names: Seq<char>| #[trigger]
        filled(names, flag_written(f), 24) && line == "  \x1b[36m"@ + names + "\x1b[0m "@ + f.desc
            + "\n"@
}

proof fn parameter_lines(args: Seq<PosArgView>) -> (lines: Seq<Seq<char>>)
    ensures
        lines.len() == args.len(),
        signature::positional_lines(args) == showing::one_after_another(lines, 0),
        forall|i: int| 0 <= i < args.len() ==> tells_parameter(#[trigger] lines[i], args[i]),
    decreases args.len(),
{
    if args.len() == 0 {
        Seq::empty()
    } else {
        let init = args.drop_last();
        let before = parameter_lines(init);
        let p = args.last();
        let line = signature::positional_line(p);
        let lines = before.push(line);
        lines_grow(before, line, 0);
        filling(p.name, 12);
        filling(signature::shape_word(p.shape), 7);
        assert(signature::shape_word(p.shape) == called(p.shape));
        assert(filled(signature::padded(p.name, 12), p.name, 12) && filled(
            signature::padded(called(p.shape), 7),
            called(p.shape),
            7,
        ));
        assert(tells_parameter(line, p));
        assert forall|i: int| 0 <= i < args.len() implies tells_parameter(
            #[trigger] lines[i],
            args[i],
        ) by {
            if i < init.len() {
                assert(lines[i] == before[i]);
                assert(init[i] == args[i]);
            }
        }
        lines
    }
}

proof fn flag_lines_in(flags: Seq<FlagSpecView>) -> (lines: Seq<Seq<char>>)
    ensures
        lines.len() == flags.len(),
        signature::flag_lines(flags) == showing::one_after_another(lines, 0),
        forall|i: int| 0 <= i < flags.len() ==> tells_flag(#[trigger] lines[i], flags[i]),
    decreases flags.len(),
{
    if flags.len() == 0 {
        Seq::empty()
    } else {
        let init = flags.drop_last();
        let before = flag_lines_in(init);
        let f = flags.last();
        let line = signature::flag_line(f);
        let lines = before.push(line);
        lines_grow(before, line, 0);
        filling(signature::flag_names(f), 24);
        flag_is_named(f);
        assert(tells_flag(line, f));
        assert forall|i: int| 0 <= i < flags.len() implies tells_flag(
            #[trigger] lines[i],
            flags[i],
        ) by {
            if i < init.len() {
                assert(lines[i] == before[i]);
                assert(init[i] == flags[i]);
            }
        }
        lines
    }
}

proof fn flag_is_named(f: FlagSpecView)
    ensures
        signature::flag_names(f) == flag_written(f),
{
    assert(signature::flag_names(f) =~= flag_written(f));
}

proof fn lines_grow(lines: Seq<Seq<char>>, line: Seq<char>, i: int)
    requires
        0 <= i <= lines.len(),
    ensures
        showing::one_after_another(lines.push(line), i) == showing::one_after_another(lines, i)
            + line,
    decreases lines.len() - i,
{
    let all = lines.push(line);
    if i < lines.len() {
        lines_grow(lines, line, i + 1);
        assert(all[i] == lines[i]);
        assert(showing::one_after_another(all, i) =~= showing::one_after_another(lines, i) + line);
    } else {
        assert(showing::one_after_another(all, i + 1) =~= Seq::empty());
        assert(showing::one_after_another(all, i) =~= showing::one_after_another(lines, i) + line);
    }
}

/// The page of a command tells what it is for and how it is used, then of each
/// parameter in its order, required, optional and rest, and of each flag.
pub proof fn pages_tell_of_everything(sig: SignatureView)
    ensures
        exists|params: Seq<Seq<char>>, flags: Seq<Seq<char>>|
            {
                let rest = match sig.rest {
                    Some(p) => seq![p],
                    None => Seq::empty(),
                };
                let all = sig.required + sig.optional + rest;
                &&& params.len() == all.len()
                &&& forall|i: int| 0 <= i < all.len() ==> tells_parameter(params[i], #[trigger] all[i])
                &&& flags.len() == sig.flags.len()
                &&& forall|i: int|
                    0 <= i < flags.len() ==> tells_flag(flags[i], #[trigger] sig.flags[i])
                &&& signature::help_text(sig) == sig.summary + "\n\n"@ + "\x1b[1mUsage:\x1b[0m "@
                    + signature::usage_text(sig) + "\n"@ + (if all.len() > 0 {
                    "\n\x1b[1mPositionals:\x1b[0m\n"@ + #[trigger] showing::one_after_another(
                        params,
                        0,
                    )
                } else {
                    Seq::empty()
                }) + (if flags.len() > 0 {
                    "\n\x1b[1mFlags:\x1b[0m\n"@ + #[trigger] showing::one_after_another(flags, 0)
                } else {
                    Seq::empty()
                })
            },
{
    let rest = match sig.rest {
        Some(p) => seq![p],
        None => Seq::empty(),
    };
    let all = sig.required + sig.optional + rest;
    assert(signature::all_positionals(sig) =~= all);
    let params = parameter_lines(all);
    let flags = flag_lines_in(sig.flags);
    let said = sig.summary + "\n\n"@ + "\x1b[1mUsage:\x1b[0m "@ + signature::usage_text(sig)
        + "\n"@ + (if all.len() > 0 {
        "\n\x1b[1mPositionals:\x1b[0m\n"@ + showing::one_after_another(params, 0)
    } else {
        Seq::empty()
    }) + (if flags.len() > 0 {
        "\n\x1b[1mFlags:\x1b[0m\n"@ + showing::one_after_another(flags, 0)
    } else {
        Seq::empty()
    });
    assert(signature::help_text(sig) =~= said);
    assert forall|i: int| 0 <= i < all.len() implies tells_parameter(params[i], #[trigger] all[i]) by {
        assert(tells_parameter(params[i], all[i]));
    }
    assert forall|i: int| 0 <= i < flags.len() implies tells_flag(
        flags[i],
        #[trigger] sig.flags[i],
    ) by {
        assert(tells_flag(flags[i], sig.flags[i]));
    }
}

} // verus!
