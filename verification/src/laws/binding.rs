//! How the arguments of a call reach the command: which parameter takes which
//! value, in what shape, and what is refused.

use crate::ask::{ReplySeq, StopView};
use crate::ast::{ArgView, CallView, ExprView, WordView};
use crate::error::Span;
use crate::expr::ScopeSeq;
use crate::float;
use crate::signature;
use crate::signature::{GatheredView, PosArgView, Shape, SignatureView, SlotView};
use crate::text;
use crate::value;
use crate::value::ValueView;
use vstd::prelude::*;

verus! {

/// Does a parameter of a shape take a value, and as what? What has the shape is
/// taken as it is. Numbers and bools are also texts, decimal texts are also
/// integers as far as a double holds them exactly, integers are also floats, and
/// the words `true` and `false` are bools.
pub open spec fn takes(shape: Shape, v: ValueView, x: ValueView) -> bool {
    match shape {
        Shape::Any => x == v,
        Shape::Str => match v {
            ValueView::Str(_) => x == v,
            ValueView::Int(n) => x == ValueView::Str(text::decimal_text(n as int)),
            ValueView::Bool(b) => x == ValueView::Str(
                if b {
                    "true"@
                } else {
                    "false"@
                },
            ),
            _ => false,
        },
        Shape::Int => match v {
            ValueView::Int(_) => x == v,
            ValueView::Str(s) => x matches ValueView::Int(n) && s == text::decimal_text(n as int)
                && -9_007_199_254_740_992 <= n <= 9_007_199_254_740_992,
            _ => false,
        },
        Shape::Float => match v {
            ValueView::Float(_) => x == v,
            ValueView::Int(n) => x == ValueView::Float(float::nearest_float(n)),
            _ => false,
        },
        Shape::Bool => match v {
            ValueView::Bool(_) => x == v,
            ValueView::Str(s) => (s == "true"@ && x == ValueView::Bool(true)) || (s == "false"@ && x
                == ValueView::Bool(false)),
            _ => false,
        },
    }
}

/// A value that a parameter takes is bound as what it is taken as.
pub proof fn values_are_taken(
    shape: Shape,
    v: ValueView,
    x: ValueView,
    at: Span,
    what: Seq<char>,
    replies: ReplySeq,
)
    requires
        takes(shape, v, x),
    ensures
        signature::coerced(v, shape, at, what, replies) == Ok::<ValueView, StopView>(x),
{
    reveal_strlit("true");
    reveal_strlit("false");
    assert("true"@.len() != "false"@.len());
    if let (Shape::Int, ValueView::Str(s)) = (shape, v) {
        let n = x->Int_0 as int;
        let m = if n < 0 {
            (-n) as nat
        } else {
            n as nat
        };
        text::numeral_denotes(m);
        let t = text::numeral(m);
        if n < 0 {
            assert(s[0] == '-');
            assert(s.skip(1) =~= t);
        } else {
            assert(text::digit(t[0]));
            assert(s == t);
        }
    }
}

/// What has no place in a shape is refused: a list, a record, bytes or null for
/// anything but a parameter that takes any value, a bool for a number, and a text
/// that is no number.
pub proof fn other_values_are_refused(
    shape: Shape,
    v: ValueView,
    at: Span,
    what: Seq<char>,
    replies: ReplySeq,
)
    requires
        shape != Shape::Any,
        v is List || v is Record || v is Bytes || v is Null || (v is Bool && (shape == Shape::Int
            || shape == Shape::Float)) || (v is Float && (shape == Shape::Int || shape
            == Shape::Bool)) || (v is Int && shape == Shape::Bool) || (v matches ValueView::Str(s)
            && shape == Shape::Int && (s.len() == 0 || s[0] != '-' && s[0] != '+' && !('0' <= s[0]
            <= '9'))) || (v matches ValueView::Str(s) && shape == Shape::Bool && s != "true"@ && s
            != "false"@),
    ensures
        signature::coerced(v, shape, at, what, replies) matches Err(StopView::Fail(_)),
{
    if let (Shape::Int, ValueView::Str(s)) = (shape, v) {
        if s.len() > 0 {
            assert(signature::unsigned_part(s) == s);
            assert(!text::digit(s[0]));
        }
    }
}

/// The value of a word: a bool for `true` and `false`, else the word.
pub open spec fn word_means(w: Seq<char>) -> ValueView {
    if w == "true"@ {
        ValueView::Bool(true)
    } else if w == "false"@ {
        ValueView::Bool(false)
    } else {
        ValueView::Str(w)
    }
}

/// An argument with a value of its own, or a flag that the signature declares: a
/// switch without a value, or one with a value that it takes.
pub open spec fn simple(sig: SignatureView, arg: ArgView) -> bool {
    match arg {
        ArgView::Positional(e) => e is Literal,
        ArgView::Flag { name, long, span, value } => long && exists|k: int| #[trigger]
            flag_means(sig, k, name, value),
    }
}

/// The flag of a place is the one of a name, and goes with the value or without.
pub open spec fn flag_means(
    sig: SignatureView,
    k: int,
    name: Seq<char>,
    value: Option<ExprView>,
) -> bool {
    &&& 0 <= k < sig.flags.len()
    &&& sig.flags[k].long == name
    &&& match (sig.flags[k].shape, value) {
        (None, None) => true,
        (Some(shape), Some(ExprView::Literal(w, _))) => exists|x: ValueView| takes(shape, w, x),
        _ => false,
    }
}

/// What a flag is bound to.
pub open spec fn flag_gives(
    sig: SignatureView,
    k: int,
    value: Option<ExprView>,
    x: ValueView,
) -> bool {
    match (sig.flags[k].shape, value) {
        (None, None) => x == ValueView::Bool(true),
        (Some(shape), Some(ExprView::Literal(w, _))) => takes(shape, w, x),
        _ => false,
    }
}

/// No two flags of a signature have the same long name.
pub open spec fn flags_distinct(sig: SignatureView) -> bool {
    forall|i: int, j: int|
        0 <= i < j < sig.flags.len() ==> (#[trigger] sig.flags[i]).long != (
        #[trigger] sig.flags[j]).long
}

/// The positional values among the arguments from one on, in their order.
pub open spec fn values_from(args: Seq<ArgView>, i: int) -> Seq<ValueView>
    decreases args.len() - i,
{
    if !(0 <= i < args.len()) {
        Seq::empty()
    } else {
        match args[i] {
            ArgView::Positional(ExprView::Literal(v, _)) => seq![v] + values_from(args, i + 1),
            _ => values_from(args, i + 1),
        }
    }
}

spec fn slots_hold(slots: Seq<SlotView>, vs: Seq<ValueView>) -> bool {
    &&& slots.len() == vs.len()
    &&& forall|k: int|
        0 <= k < slots.len() ==> (#[trigger] slots[k] matches SlotView::Value(v, _) && v == vs[k])
}

/// Is a flag among the arguments from one on, with a value that gives `x`?
pub open spec fn given_from(
    sig: SignatureView,
    args: Seq<ArgView>,
    i: int,
    name: Seq<char>,
    x: ValueView,
) -> bool {
    exists|j: int, k: int|
        i <= j < args.len() && #[trigger] gives_at(sig, args, j, k, name, x)
}

pub open spec fn gives_at(
    sig: SignatureView,
    args: Seq<ArgView>,
    j: int,
    k: int,
    name: Seq<char>,
    x: ValueView,
) -> bool {
    &&& 0 <= j < args.len()
    &&& args[j] matches ArgView::Flag { name: own, long, span, value }
    &&& own == name
    &&& 0 <= k < sig.flags.len()
    &&& sig.flags[k].long == name
    &&& flag_gives(sig, k, value, x)
}

/// Is a flag of a name among the arguments from one on?
pub open spec fn named_from(args: Seq<ArgView>, i: int, name: Seq<char>) -> bool {
    exists|j: int| i <= j < args.len() && #[trigger] is_flag(args[j], name)
}

pub open spec fn is_flag(arg: ArgView, name: Seq<char>) -> bool {
    arg matches ArgView::Flag { name: own, long, span, value } && own == name
}

/// Each flag is given once.
pub open spec fn given_once(args: Seq<ArgView>) -> bool {
    forall|i: int, j: int, name: Seq<char>|
        #![trigger is_flag(args[i], name), is_flag(args[j], name)]
        0 <= i < j < args.len() && is_flag(args[i], name) ==> !is_flag(args[j], name)
}

proof fn nothing_to_expand(sig: SignatureView, args: Seq<ArgView>)
    requires
        forall|i: int| 0 <= i < args.len() ==> simple(sig, #[trigger] args[i]),
    ensures
        signature::expanded(args) == args,
    decreases args.len(),
{
    if args.len() > 0 {
        let init = args.drop_last();
        assert forall|i: int| 0 <= i < init.len() implies simple(sig, #[trigger] init[i]) by {
            assert(args[i] == init[i]);
        }
        nothing_to_expand(sig, init);
        assert(simple(sig, args[args.len() - 1]));
        assert(init + seq![args.last()] =~= args);
    } else {
        assert(signature::expanded(args) =~= args);
    }
}

proof fn taking_is_unique(shape: Shape, v: ValueView, x: ValueView, y: ValueView)
    requires
        takes(shape, v, x),
        takes(shape, v, y),
    ensures
        x == y,
{
    values_are_taken(shape, v, x, Span { start: 0, end: 0 }, Seq::empty(), Seq::empty());
    values_are_taken(shape, v, y, Span { start: 0, end: 0 }, Seq::empty(), Seq::empty());
}

proof fn gathering(
    sig: SignatureView,
    args: Seq<ArgView>,
    i: int,
    g: GatheredView,
    vs: Seq<ValueView>,
    scope: ScopeSeq,
    replies: ReplySeq,
)
    requires
        flags_distinct(sig),
        0 <= i <= args.len(),
        forall|k: int| 0 <= k < args.len() ==> simple(sig, #[trigger] args[k]),
        given_once(args),
        slots_hold(g.slots, vs),
        value::names_distinct(g.flags),
        forall|name: Seq<char>|
            value::lookup(g.flags, name) is Some ==> !#[trigger] named_from(args, i, name),
    ensures
        signature::gathered(sig, args, i, g, scope, replies) matches Ok(h) && {
            &&& slots_hold(h.slots, vs + values_from(args, i))
            &&& h.closures == g.closures
            &&& value::names_distinct(h.flags)
            &&& forall|name: Seq<char>, x: ValueView| #[trigger]
                given_from(sig, args, i, name, x) ==> value::lookup(h.flags, name) == Some(x)
            &&& forall|name: Seq<char>|
                !#[trigger] named_from(args, i, name) ==> value::lookup(h.flags, name)
                    == value::lookup(g.flags, name)
        },
    decreases args.len() - i,
{
    if i == args.len() {
        assert(vs + values_from(args, i) =~= vs);
    } else {
        assert(simple(sig, args[i]));
        match args[i] {
            ArgView::Positional(ExprView::Literal(v, at)) => {
                let slot = SlotView::Value(v, crate::ast::span_of_expr(ExprView::Literal(v, at)));
                let more = g.with_slot(slot);
                assert(slots_hold(more.slots, vs.push(v)));
                assert forall|name: Seq<char>|
                    value::lookup(more.flags, name) is Some implies !#[trigger] named_from(
                    args,
                    i + 1,
                    name,
                ) by {
                    assert(!named_from(args, i, name));
                }
                gathering(sig, args, i + 1, more, vs.push(v), scope, replies);
                let h = signature::gathered(sig, args, i, g, scope, replies)->Ok_0;
                assert(vs.push(v) + values_from(args, i + 1) =~= vs + values_from(args, i));
                assert forall|name: Seq<char>, x: ValueView| #[trigger]
                    given_from(sig, args, i, name, x) implies value::lookup(h.flags, name)
                    == Some(x) by {
                    let (j, k) = choose|j: int, k: int|
                        i <= j < args.len() && #[trigger] gives_at(sig, args, j, k, name, x);
                    assert(j != i);
                    assert(given_from(sig, args, i + 1, name, x));
                }
                assert forall|name: Seq<char>|
                    !#[trigger] named_from(args, i, name) implies value::lookup(h.flags, name)
                    == value::lookup(g.flags, name) by {
                    assert(!named_from(args, i + 1, name)) by {
                        if named_from(args, i + 1, name) {
                            let j = choose|j: int|
                                i + 1 <= j < args.len() && #[trigger] is_flag(args[j], name);
                            assert(is_flag(args[j], name));
                        }
                    }
                }
            },
            ArgView::Flag { name: own, long, span, value: val } => {
                let k0 = choose|k: int| #[trigger] flag_means(sig, k, own, val);
                signature::flag_index_is_first(sig.flags, own, true);
                assert(sig.flags[k0].long == own);
                let k1 = signature::flag_index(sig.flags, own, true)->0;
                assert(k1 == k0) by {
                    if k1 < k0 {
                        assert(sig.flags[k1].long != sig.flags[k0].long);
                    } else if k0 < k1 {
                        assert(sig.flags[k0].long != sig.flags[k1].long);
                    }
                }
                let f = sig.flags[k0];
                let y = match (f.shape, val) {
                    (Some(shape), Some(ExprView::Literal(w, _))) => choose|x: ValueView|
                        takes(shape, w, x),
                    _ => ValueView::Bool(true),
                };
                assert(flag_gives(sig, k0, val, y));
                if let (Some(shape), Some(ExprView::Literal(w, at))) = (f.shape, val) {
                    values_are_taken(
                        shape,
                        w,
                        y,
                        crate::ast::span_of_expr(val->0),
                        "`--"@ + f.long + "`"@,
                        replies,
                    );
                }
                let more = g.with_flag(own, y);
                assert(own.push('-').len() != own.len());
                assert(signature::gather_one(sig, args, i, g, scope, replies) == Ok::<
                    (GatheredView, int),
                    StopView,
                >((more, i + 1)));
                assert(is_flag(args[i], own));
                assert forall|name: Seq<char>|
                    value::lookup(more.flags, name) is Some implies !#[trigger] named_from(
                    args,
                    i + 1,
                    name,
                ) by {
                    if name != own {
                        value::fields_behave_as_a_map(g.flags, own, y, name);
                    }
                    if named_from(args, i + 1, name) {
                        let j = choose|j: int|
                            i + 1 <= j < args.len() && #[trigger] is_flag(args[j], name);
                        if name == own {
                            assert(is_flag(args[i], name) && is_flag(args[j], name));
                        } else {
                            assert(named_from(args, i, name));
                        }
                    }
                }
                value::fields_behave_as_a_map(g.flags, own, y, own.push('-'));
                gathering(sig, args, i + 1, more, vs, scope, replies);
                let h = signature::gathered(sig, args, i, g, scope, replies)->Ok_0;
                assert(values_from(args, i) == values_from(args, i + 1));
                assert forall|name: Seq<char>, x: ValueView| #[trigger]
                    given_from(sig, args, i, name, x) implies value::lookup(h.flags, name)
                    == Some(x) by {
                    let (j, k) = choose|j: int, k: int|
                        i <= j < args.len() && #[trigger] gives_at(sig, args, j, k, name, x);
                    if j == i {
                        assert(k == k0) by {
                            if k < k0 {
                                assert(sig.flags[k].long != sig.flags[k0].long);
                            } else if k0 < k {
                                assert(sig.flags[k0].long != sig.flags[k].long);
                            }
                        }
                        if let (Some(shape), Some(ExprView::Literal(w, _))) = (f.shape, val) {
                            taking_is_unique(shape, w, x, y);
                        }
                        assert(x == y);
                        assert(!named_from(args, i + 1, own)) by {
                            if named_from(args, i + 1, own) {
                                let q = choose|q: int|
                                    i + 1 <= q < args.len() && #[trigger] is_flag(args[q], own);
                                assert(is_flag(args[i], own) && is_flag(args[q], own));
                            }
                        }
                    } else {
                        assert(given_from(sig, args, i + 1, name, x));
                    }
                }
                assert forall|name: Seq<char>|
                    !#[trigger] named_from(args, i, name) implies value::lookup(h.flags, name)
                    == value::lookup(g.flags, name) by {
                    assert(name != own) by {
                        if name == own {
                            assert(is_flag(args[i], name));
                            assert(named_from(args, i, name));
                        }
                    }
                    assert(!named_from(args, i + 1, name)) by {
                        if named_from(args, i + 1, name) {
                            let j = choose|j: int|
                                i + 1 <= j < args.len() && #[trigger] is_flag(args[j], name);
                            assert(is_flag(args[j], name));
                        }
                    }
                    value::fields_behave_as_a_map(g.flags, own, y, name);
                }
            },
            _ => {},
        }
    }
}

/// The shape of the parameter at a place: those of the required ones come first,
/// then those of the optional ones, then that of the rest.
pub open spec fn shape_at(sig: SignatureView, k: int) -> Shape {
    let r = sig.required.len();
    let o = sig.optional.len();
    if k < r {
        sig.required[k].shape
    } else if k < r + o {
        sig.optional[k - r].shape
    } else {
        sig.rest->0.shape
    }
}

proof fn binding_params(
    sig: SignatureView,
    n: nat,
    slots: Seq<SlotView>,
    vs: Seq<ValueView>,
    xs: Seq<ValueView>,
    scope: ScopeSeq,
    head: Span,
    replies: ReplySeq,
)
    requires
        n <= sig.required.len() + sig.optional.len(),
        slots_hold(slots, vs),
        xs.len() == vs.len(),
        sig.required.len() <= vs.len(),
        forall|k: int| 0 <= k < vs.len() ==> takes(shape_at(sig, k), vs[k], #[trigger] xs[k]),
    ensures
        signature::bound_params(sig, n, slots, Seq::empty(), scope, head, replies) matches Ok(b)
            && b.1.len() == 0 && b.0 == xs.take(
            if n <= xs.len() {
                n as int
            } else {
                xs.len() as int
            },
        ),
    decreases n,
{
    if n > 0 {
        let k = (n - 1) as nat;
        binding_params(sig, k, slots, vs, xs, scope, head, replies);
        if k < slots.len() {
            let p = signature::declared(sig)[k as int];
            let v = vs[k as int];
            assert(takes(shape_at(sig, k as int), v, xs[k as int]));
            let at = signature::slot_span(slots[k as int]);
            assert(slots[k as int] == SlotView::Value(v, at));
            values_are_taken(p.shape, v, xs[k as int], at, "`"@ + p.name + "`"@, replies);
            assert(xs.take(k as int).push(xs[k as int]) =~= xs.take(n as int));
        }
    } else {
        assert(xs.take(0) =~= Seq::empty());
    }
}

proof fn binding_rest(
    rest: PosArgView,
    slots: Seq<SlotView>,
    vs: Seq<ValueView>,
    xs: Seq<ValueView>,
    n: nat,
    replies: ReplySeq,
)
    requires
        n <= vs.len(),
        slots_hold(slots, vs),
        xs.len() == vs.len(),
        forall|k: int| 0 <= k < vs.len() ==> takes(rest.shape, vs[k], #[trigger] xs[k]),
    ensures
        signature::bound_rest(rest, slots, n, replies) == Ok::<Seq<ValueView>, StopView>(
            xs.take(n as int),
        ),
    decreases n,
{
    if n > 0 {
        binding_rest(rest, slots, vs, xs, (n - 1) as nat, replies);
        let k = n - 1;
        assert(takes(rest.shape, vs[k], xs[k]));
        let at = signature::slot_span(slots[k]);
        assert(slots[k] == SlotView::Value(vs[k], at));
        values_are_taken(rest.shape, vs[k], xs[k], at, "`"@ + rest.name + "`"@, replies);
        assert(xs.take(k).push(xs[k]) =~= xs.take(n as int));
    } else {
        assert(xs.take(0) =~= Seq::<ValueView>::empty());
    }
}

/// The values that a call gives by position: first the words behind its name, then
/// those among its arguments.
pub open spec fn given_values(leading: Seq<WordView>, call: CallView) -> Seq<ValueView> {
    leading.map_values(|w: WordView| word_means(w.node)) + values_from(call.args, 0)
}

/// Positional values go to the parameters in their order: the required ones, the
/// optional ones, then the rest. Each flag is bound under its long name, a switch as
/// true, and a flag that is not given is not bound. Flags between the values do not
/// matter to them.
pub proof fn arguments_are_bound_in_order(
    sig: SignatureView,
    leading: Seq<WordView>,
    call: CallView,
    xs: Seq<ValueView>,
    scope: ScopeSeq,
    replies: ReplySeq,
)
    requires
        flags_distinct(sig),
        forall|k: int| 0 <= k < call.args.len() ==> simple(sig, #[trigger] call.args[k]),
        given_once(call.args),
        ({
            let vs = given_values(leading, call);
            &&& xs.len() == vs.len()
            &&& sig.required.len() <= vs.len()
            &&& vs.len() <= sig.required.len() + sig.optional.len() || sig.rest is Some
            &&& forall|k: int|
                0 <= k < vs.len() ==> takes(shape_at(sig, k), vs[k], #[trigger] xs[k])
        }),
    ensures
        signature::bound_call(sig, leading, call, scope, replies) matches Ok(b) && {
            &&& b.positionals == xs
            &&& b.closures.len() == 0
            &&& forall|name: Seq<char>, x: ValueView| #[trigger]
                given_from(sig, call.args, 0, name, x) ==> value::lookup(b.flags, name) == Some(x)
            &&& forall|name: Seq<char>|
                !#[trigger] named_from(call.args, 0, name) ==> value::lookup(b.flags, name) is None
        },
{
    let start = GatheredView {
        slots: signature::word_slots(leading),
        flags: Seq::empty(),
        closures: Seq::empty(),
    };
    let words = leading.map_values(|w: WordView| word_means(w.node));
    let vs = given_values(leading, call);
    assert(slots_hold(start.slots, words));
    nothing_to_expand(sig, call.args);
    assert forall|name: Seq<char>| value::lookup(start.flags, name) is None by {
        value::position_is_first(start.flags, name);
    }
    gathering(sig, call.args, 0, start, words, scope, replies);
    let g = signature::gathered(sig, call.args, 0, start, scope, replies)->Ok_0;
    assert(g.closures =~= Seq::empty());
    let head = crate::ast::words_span_of(call);
    let count = signature::declared(sig).len();
    binding_params(sig, count, g.slots, vs, xs, scope, head, replies);
    if g.slots.len() > count {
        let extra = g.slots.skip(count as int);
        let ys = xs.skip(count as int);
        let us = vs.skip(count as int);
        assert forall|k: int| 0 <= k < us.len() implies takes(
            sig.rest->0.shape,
            us[k],
            #[trigger] ys[k],
        ) by {
            assert(takes(shape_at(sig, k + count), vs[k + count], xs[k + count]));
        }
        assert(slots_hold(extra, us)) by {
            assert forall|k: int| 0 <= k < extra.len() implies (#[trigger] extra[k] matches SlotView::Value(
                v,
                _,
            ) && v == us[k]) by {
                assert(extra[k] == g.slots[k + count]);
            }
        }
        binding_rest(sig.rest->0, extra, us, ys, extra.len(), replies);
        assert(ys.take(ys.len() as int) =~= ys);
        assert(xs.take(count as int) + ys =~= xs);
    } else {
        assert(xs.take(xs.len() as int) =~= xs);
    }
}

proof fn missing_params(
    sig: SignatureView,
    n: nat,
    slots: Seq<SlotView>,
    scope: ScopeSeq,
    head: Span,
    replies: ReplySeq,
)
    requires
        slots.len() < sig.required.len(),
        slots.len() < n <= sig.required.len() + sig.optional.len(),
    ensures
        signature::bound_params(sig, n, slots, Seq::empty(), scope, head, replies) is Err,
    decreases n,
{
    if n - 1 > slots.len() {
        missing_params(sig, (n - 1) as nat, slots, scope, head, replies);
    }
}

/// Too few values for the required parameters are refused, and so are more values
/// than there are parameters where the rest takes none.
pub proof fn the_number_of_arguments_is_checked(
    sig: SignatureView,
    leading: Seq<WordView>,
    call: CallView,
    scope: ScopeSeq,
    replies: ReplySeq,
)
    requires
        flags_distinct(sig),
        forall|k: int| 0 <= k < call.args.len() ==> simple(sig, #[trigger] call.args[k]),
        given_once(call.args),
        ({
            let n = given_values(leading, call).len();
            n < sig.required.len() || (n > sig.required.len() + sig.optional.len() && sig.rest
                is None)
        }),
    ensures
        signature::bound_call(sig, leading, call, scope, replies) is Err,
{
    let start = GatheredView {
        slots: signature::word_slots(leading),
        flags: Seq::empty(),
        closures: Seq::empty(),
    };
    let words = leading.map_values(|w: WordView| word_means(w.node));
    assert(slots_hold(start.slots, words));
    nothing_to_expand(sig, call.args);
    assert forall|name: Seq<char>| value::lookup(start.flags, name) is None by {
        value::position_is_first(start.flags, name);
    }
    gathering(sig, call.args, 0, start, words, scope, replies);
    let g = signature::gathered(sig, call.args, 0, start, scope, replies)->Ok_0;
    assert(g.closures =~= Seq::empty());
    let head = crate::ast::words_span_of(call);
    let count = signature::declared(sig).len();
    if g.slots.len() < sig.required.len() {
        missing_params(sig, count, g.slots, scope, head, replies);
    }
}

/// A flag that the signature does not declare is refused.
pub proof fn unknown_flags_are_refused(
    sig: SignatureView,
    leading: Seq<WordView>,
    call: CallView,
    name: Seq<char>,
    span: Span,
    value: Option<ExprView>,
    scope: ScopeSeq,
    replies: ReplySeq,
)
    requires
        call.args == seq![ArgView::Flag { name, long: true, span, value }],
        forall|k: int| 0 <= k < sig.flags.len() ==> (#[trigger] sig.flags[k]).long != name,
    ensures
        signature::bound_call(sig, leading, call, scope, replies) matches Err(StopView::Fail(_)),
{
    let args = call.args;
    reveal_with_fuel(signature::expanded, 2);
    assert(args.last() == args[0]);
    assert(signature::expanded(args) =~= args);
    signature::flag_index_is_first(sig.flags, name, true);
    if let Some(k) = signature::flag_index(sig.flags, name, true) {
        assert(sig.flags[k].long == name);
    }
}

proof fn single_letters_stay(args: Seq<ArgView>)
    requires
        forall|k: int| 0 <= k < args.len() ==> signature::expand_one(#[trigger] args[k]) == seq![
            args[k],
        ],
    ensures
        signature::expanded(args) == args,
    decreases args.len(),
{
    if args.len() > 0 {
        let init = args.drop_last();
        assert forall|k: int| 0 <= k < init.len() implies signature::expand_one(#[trigger] init[k])
            == seq![init[k]] by {
            assert(args[k] == init[k]);
        }
        single_letters_stay(init);
        assert(signature::expand_one(args[args.len() - 1]) == seq![args[args.len() - 1]]);
        assert(init + seq![args.last()] =~= args);
    } else {
        assert(signature::expanded(args) =~= args);
    }
}

/// Short flags in a cluster bind as they do one by one, and a value goes to the last
/// of them.
pub proof fn clusters_are_flags_one_by_one(
    sig: SignatureView,
    leading: Seq<WordView>,
    call: CallView,
    apart: CallView,
    letters: Seq<char>,
    span: Span,
    value: Option<ExprView>,
    scope: ScopeSeq,
    replies: ReplySeq,
)
    requires
        letters.len() > 0,
        call.args == seq![ArgView::Flag { name: letters, long: false, span, value }],
        apart.words == call.words,
        apart.span == call.span,
        apart.args.len() == letters.len(),
        forall|k: int|
            0 <= k < letters.len() ==> #[trigger] apart.args[k] == (ArgView::Flag {
                name: seq![letters[k]],
                long: false,
                span,
                value: if k + 1 == letters.len() {
                    value
                } else {
                    None
                },
            }),
    ensures
        signature::bound_call(sig, leading, call, scope, replies) == signature::bound_call(
            sig,
            leading,
            apart,
            scope,
            replies,
        ),
{
    single_letters_stay(apart.args);
    let args = call.args;
    reveal_with_fuel(signature::expanded, 2);
    assert(args.last() == args[0]);
    assert(args.drop_last() =~= Seq::empty());
    if letters.len() == 1 {
        assert(letters =~= seq![letters[0]]);
    }
    assert(signature::expanded(args) =~= apart.args);
}

} // verus!
