//! What commands start with, as they are typed.

use crate::ask::{ReplySeq, StopView};
use crate::ast::{ArgView, CallView, ExprView, WordView};
use crate::builtins;
use crate::builtins::Builtin;
use crate::error::Span;
use crate::eval;
use crate::expr::ScopeSeq;
use crate::laws::binding;
use crate::pipeline::EnvView;
use crate::registry;
use crate::signature;
use crate::signature::{BoundCallView, Shape, SignatureView};
use crate::text;
use crate::value;
use crate::value::ValueView;
use vstd::prelude::*;

verus! {

/// A call of these words and these arguments, in a shell with its own commands.
pub open spec fn typed(call: CallView, env: EnvView, name: Seq<char>, args: Seq<ArgView>) -> bool {
    &&& env.entries == builtins::builtin_entries()
    &&& call.words.len() > 0
    &&& text::joined(registry::word_nodes(call.words), " "@) == name
    &&& call.args == args
}

/// The call starts the command of a name with what was bound.
pub open spec fn starts(call: CallView, env: EnvView, name: Seq<char>, b: BoundCallView) -> bool {
    registry::named(env.entries, name) matches Some(k) && eval::entered(call, env)
        == eval::launched(env.entries[k].command, b, env.replies)
}

/// A flag on the line: by its long name, or by its letter.
pub open spec fn flag(name: Seq<char>, long: bool, span: Span) -> ArgView {
    ArgView::Flag { name, long, span, value: None }
}

pub open spec fn literal(v: ValueView, span: Span) -> ArgView {
    ArgView::Positional(ExprView::Literal(v, span))
}

proof fn enters(which: Builtin, call: CallView, env: EnvView, b: BoundCallView)
    requires
        typed(call, env, builtins::name_of(which), call.args),
        forall|i: int| 0 <= i < call.args.len() ==> !signature::asks_help(#[trigger] call.args[i]),
        signature::bound_call(
            builtins::signature_of(which),
            Seq::empty(),
            call,
            env.scope,
            env.replies,
        ) == Ok::<BoundCallView, StopView>(b),
    ensures
        starts(call, env, builtins::name_of(which), b),
{
    builtins::every_builtin_is_found(which);
    reveal(eval::entered);
    let words = registry::word_nodes(call.words);
    let n = words.len() as int;
    assert(words.take(n) =~= words);
    assert(call.words.skip(n) =~= Seq::empty());
    assert(registry::longest_prefix(env.entries, words, n) == Some((builtins::rank(which), n)));
}

proof fn letters_differ(which: Builtin)
    ensures
        binding::flags_distinct(builtins::signature_of(which)),
{
    let sig = builtins::signature_of(which);
    reveal_strlit("on");
    reveal_strlit("ignore-case");
    reveal_strlit("invert");
    reveal_strlit("reverse");
    reveal_strlit("right");
    reveal_strlit("down");
    assert("on"@.len() == 2 && "ignore-case"@.len() == 11 && "invert"@.len() == 6
        && "reverse"@.len() == 7 && "right"@.len() == 5 && "down"@.len() == 4);
    assert forall|i: int, j: int| 0 <= i < j < sig.flags.len() implies (#[trigger] sig.flags[i]).long
        != (#[trigger] sig.flags[j]).long by {}
}

proof fn no_leading(call: CallView)
    ensures
        binding::given_values(Seq::empty(), call) == binding::values_from(call.args, 0),
{
    let none = Seq::<WordView>::empty();
    assert(none.map_values(|w: WordView| binding::word_means(w.node)) =~= Seq::<
        ValueView,
    >::empty());
    assert(Seq::<ValueView>::empty() + binding::values_from(call.args, 0) =~= binding::values_from(
        call.args,
        0,
    ));
}

proof fn one_value(which: Builtin, call: CallView, env: EnvView, v: ValueView, span: Span) -> (b:
    BoundCallView)
    requires
        typed(call, env, builtins::name_of(which), seq![literal(v, span)]),
        builtins::required_of(which).len() + builtins::optional_of(which).len() == 1,
        builtins::required_of(which).len() == 1 ==> binding::takes(
            builtins::required_of(which)[0].shape,
            v,
            v,
        ),
        builtins::optional_of(which).len() == 1 ==> binding::takes(
            builtins::optional_of(which)[0].shape,
            v,
            v,
        ),
    ensures
        b.positionals == seq![v],
        b.closures.len() == 0,
        starts(call, env, builtins::name_of(which), b),
        forall|name: Seq<char>| #[trigger] value::lookup(b.flags, name) is None,
{
    let sig = builtins::signature_of(which);
    letters_differ(which);
    no_leading(call);
    reveal_with_fuel(binding::values_from, 2);
    assert(call.args[0] == literal(v, span));
    let xs = seq![v];
    assert(binding::values_from(call.args, 0) =~= seq![v]);
    assert(binding::takes(binding::shape_at(sig, 0), xs[0], xs[0]));
    binding::arguments_are_bound_in_order(
        sig,
        Seq::empty(),
        call,
        xs,
        env.scope,
        env.replies,
    );
    let b = signature::bound_call(sig, Seq::empty(), call, env.scope, env.replies)->Ok_0;
    assert forall|i: int| 0 <= i < call.args.len() implies !signature::asks_help(
        #[trigger] call.args[i],
    ) by {
        assert(i == 0);
    }
    enters(which, call, env, b);
    assert forall|name: Seq<char>| #[trigger] value::lookup(b.flags, name) is None by {
        assert(!binding::named_from(call.args, 0, name)) by {
            if binding::named_from(call.args, 0, name) {
                let j = choose|j: int|
                    0 <= j < call.args.len() && #[trigger] binding::is_flag(call.args[j], name);
                assert(j == 0);
            }
        }
    }
    b
}

/// `head` and `tail` start with the number that is typed behind them.
pub proof fn counts_are_taken(call: CallView, env: EnvView, n: i64, span: Span)
    ensures
        typed(call, env, "tail"@, seq![literal(ValueView::Int(n), span)]) ==> exists|
            b: BoundCallView,
        | #[trigger] starts(call, env, "tail"@, b) && b.positionals == seq![ValueView::Int(n)],
        typed(call, env, "head"@, seq![literal(ValueView::Int(n), span)]) ==> exists|
            b: BoundCallView,
        | #[trigger] starts(call, env, "head"@, b) && b.positionals == seq![ValueView::Int(n)],
{
    let v = ValueView::Int(n);
    if typed(call, env, "tail"@, seq![literal(v, span)]) {
        let b = one_value(Builtin::Tail, call, env, v, span);
    }
    if typed(call, env, "head"@, seq![literal(v, span)]) {
        let b = one_value(Builtin::Head, call, env, v, span);
    }
}

/// The commands that go by a name or a pattern start with the text that is typed
/// behind them, and with no flag set.
pub proof fn texts_are_taken(call: CallView, env: EnvView, s: Seq<char>, span: Span)
    ensures
        starts_with_text(call, env, "get"@, s, span),
        starts_with_text(call, env, "grep"@, s, span),
        starts_with_text(call, env, "map"@, s, span),
        starts_with_text(call, env, "filter"@, s, span),
        starts_with_text(call, env, "sort-by"@, s, span),
        starts_with_text(call, env, "mux focus"@, s, span),
        starts_with_text(call, env, "session switch"@, s, span),
        starts_with_text(call, env, "session new"@, s, span),
{
    taking_a_text(Builtin::Get, call, env, s, span);
    taking_a_text(Builtin::Grep, call, env, s, span);
    taking_a_text(Builtin::MapEach, call, env, s, span);
    taking_a_text(Builtin::Filter, call, env, s, span);
    taking_a_text(Builtin::SortBy, call, env, s, span);
    taking_a_text(Builtin::MuxFocus, call, env, s, span);
    taking_a_text(Builtin::SessionSwitch, call, env, s, span);
    taking_a_text(Builtin::SessionNew, call, env, s, span);
}

pub open spec fn starts_with_text(
    call: CallView,
    env: EnvView,
    name: Seq<char>,
    s: Seq<char>,
    span: Span,
) -> bool {
    typed(call, env, name, seq![literal(ValueView::Str(s), span)]) ==> exists|b: BoundCallView|
        #[trigger]
        starts(call, env, name, b) && b.positionals == seq![ValueView::Str(s)] && forall|
            f: Seq<char>,
        | #[trigger] value::lookup(b.flags, f) is None
}

proof fn taking_a_text(which: Builtin, call: CallView, env: EnvView, s: Seq<char>, span: Span)
    requires
        which == Builtin::Get || which == Builtin::Grep || which == Builtin::MapEach || which
            == Builtin::Filter || which == Builtin::SortBy || which == Builtin::MuxFocus || which
            == Builtin::SessionSwitch || which == Builtin::SessionNew,
    ensures
        starts_with_text(call, env, builtins::name_of(which), s, span),
{
    let v = ValueView::Str(s);
    if typed(call, env, builtins::name_of(which), seq![literal(v, span)]) {
        let b = one_value(which, call, env, v, span);
    }
}

/// A flag behind a text sets the switch of that name and no other.
pub open spec fn starts_with_switch(
    call: CallView,
    env: EnvView,
    name: Seq<char>,
    s: Seq<char>,
    switch: Seq<char>,
    letter: char,
    span: Span,
) -> bool {
    typed(call, env, name, seq![literal(ValueView::Str(s), span), flag(switch, true, span)]) || typed(
        call,
        env,
        name,
        seq![literal(ValueView::Str(s), span), flag(seq![letter], false, span)],
    ) ==> exists|b: BoundCallView| #[trigger]
        starts(call, env, name, b) && b.positionals == seq![ValueView::Str(s)] && value::lookup(
            b.flags,
            switch,
        ) == Some(ValueView::Bool(true)) && forall|f: Seq<char>|
            f != switch ==> #[trigger] value::lookup(b.flags, f) is None
}

proof fn switch_is_bound(
    sig: SignatureView,
    long: CallView,
    s: Seq<char>,
    k: int,
    span: Span,
    scope: ScopeSeq,
    replies: ReplySeq,
) -> (b: BoundCallView)
    requires
        binding::flags_distinct(sig),
        sig.required.len() + sig.optional.len() == 1,
        binding::shape_at(sig, 0) == Shape::Str,
        0 <= k < sig.flags.len(),
        sig.flags[k].shape is None,
        long.args == seq![literal(ValueView::Str(s), span), flag(sig.flags[k].long, true, span)],
    ensures
        signature::bound_call(sig, Seq::empty(), long, scope, replies) == Ok::<
            BoundCallView,
            StopView,
        >(b),
        b.positionals == seq![ValueView::Str(s)],
        value::lookup(b.flags, sig.flags[k].long) == Some(ValueView::Bool(true)),
        forall|f: Seq<char>|
            f != sig.flags[k].long ==> #[trigger] value::lookup(b.flags, f) is None,
{
    let switch = sig.flags[k].long;
    no_leading(long);
    reveal_with_fuel(binding::values_from, 3);
    assert(long.args[0] == literal(ValueView::Str(s), span));
    assert(long.args[1] == flag(switch, true, span));
    assert(binding::flag_means(sig, k, switch, None));
    let xs = seq![ValueView::Str(s)];
    assert(binding::values_from(long.args, 0) =~= xs);
    assert(binding::takes(binding::shape_at(sig, 0), xs[0], xs[0]));
    assert(binding::simple(sig, long.args[0]));
    assert(binding::simple(sig, long.args[1]));
    assert forall|i: int| 0 <= i < long.args.len() implies binding::simple(
        sig,
        #[trigger] long.args[i],
    ) by {
        assert(i == 0 || i == 1);
    }
    binding::arguments_are_bound_in_order(sig, Seq::empty(), long, xs, scope, replies);
    let b = signature::bound_call(sig, Seq::empty(), long, scope, replies)->Ok_0;
    assert(binding::gives_at(sig, long.args, 1, k, switch, ValueView::Bool(true)));
    assert(binding::given_from(sig, long.args, 0, switch, ValueView::Bool(true)));
    assert forall|f: Seq<char>| f != switch implies #[trigger] value::lookup(b.flags, f) is None by {
        assert(!binding::named_from(long.args, 0, f)) by {
            if binding::named_from(long.args, 0, f) {
                let j = choose|j: int|
                    0 <= j < long.args.len() && #[trigger] binding::is_flag(long.args[j], f);
                assert(j == 0 || j == 1);
            }
        }
    }
    b
}

#[verifier::rlimit(50)]
proof fn setting_a_switch(
    which: Builtin,
    call: CallView,
    env: EnvView,
    s: Seq<char>,
    k: int,
    letter: char,
    span: Span,
)
    requires
        which == Builtin::Grep || which == Builtin::Filter || which == Builtin::SortBy,
        0 <= k < builtins::flags_of(which).len(),
        builtins::flags_of(which)[k].shape is None,
        builtins::flags_of(which)[k].short == Some(letter),
        forall|j: int|
            0 <= j < k ==> (#[trigger] builtins::flags_of(which)[j]).short != Some(letter),
        builtins::flags_of(which)[k].long != "help"@,
        letter != 'h',
    ensures
        starts_with_switch(
            call,
            env,
            builtins::name_of(which),
            s,
            builtins::flags_of(which)[k].long,
            letter,
            span,
        ),
{
    let name = builtins::name_of(which);
    let switch = builtins::flags_of(which)[k].long;
    let sig = builtins::signature_of(which);
    let text = literal(ValueView::Str(s), span);
    letters_differ(which);
    let long = CallView { args: seq![text, flag(switch, true, span)], ..call };
    let b = switch_is_bound(sig, long, s, k, span, env.scope, env.replies);
    if typed(call, env, name, seq![text, flag(switch, true, span)]) {
        assert(long == call);
        assert forall|i: int| 0 <= i < call.args.len() implies !signature::asks_help(
            #[trigger] call.args[i],
        ) by {
            assert(i == 0 || i == 1);
        }
        enters(which, call, env, b);
    }
    if typed(call, env, name, seq![text, flag(seq![letter], false, span)]) {
        assert(call.args[0] == text);
        assert(call.args[1] == flag(seq![letter], false, span));
        signature::flag_index_is_first(sig.flags, seq![letter], false);
        signature::flag_index_is_first(sig.flags, switch, true);
        assert(seq![letter][0] == letter);
        assert(signature::answers_to(sig.flags[k], seq![letter], false));
        assert(signature::answers_to(sig.flags[k], switch, true));
        let at = signature::flag_index(sig.flags, seq![letter], false)->0;
        assert(at == k) by {
            if at < k {
                assert(sig.flags[at].short != Some(letter));
            }
        }
        let up = signature::flag_index(sig.flags, switch, true)->0;
        assert(up == k) by {
            if up < k {
                assert(sig.flags[up].long != sig.flags[k].long);
            }
        }
        signature::short_and_long_flags_agree(
            sig,
            Seq::empty(),
            call,
            1,
            letter,
            switch,
            span,
            None,
            env.scope,
            env.replies,
        );
        assert(call.args.update(1, flag(switch, true, span)) =~= long.args);
        assert forall|i: int| 0 <= i < call.args.len() implies !signature::asks_help(
            #[trigger] call.args[i],
        ) by {
            assert(i == 0 || i == 1);
        }
        enters(which, call, env, b);
    }
}

/// The switches of `grep`, `filter` and `sort-by` are set by their names, and by the
/// letters `i`, `v` and `r`.
pub proof fn switches_are_taken(call: CallView, env: EnvView, s: Seq<char>, span: Span)
    ensures
        starts_with_switch(call, env, "grep"@, s, "ignore-case"@, 'i', span),
        starts_with_switch(call, env, "grep"@, s, "invert"@, 'v', span),
        starts_with_switch(call, env, "filter"@, s, "invert"@, 'v', span),
        starts_with_switch(call, env, "sort-by"@, s, "reverse"@, 'r', span),
{
    reveal_strlit("help");
    reveal_strlit("ignore-case");
    reveal_strlit("invert");
    reveal_strlit("reverse");
    assert("help"@.len() == 4 && "ignore-case"@.len() == 11 && "invert"@.len() == 6
        && "reverse"@.len() == 7);
    setting_a_switch(Builtin::Grep, call, env, s, 1, 'i', span);
    setting_a_switch(Builtin::Grep, call, env, s, 2, 'v', span);
    setting_a_switch(Builtin::Filter, call, env, s, 0, 'v', span);
    setting_a_switch(Builtin::SortBy, call, env, s, 1, 'r', span);
}

} // verus!
