//! What lines of plain words mean: every key binding is a command of the shell,
//! and the ways to write a flag with a value come to the same.

use crate::ask::ReplySeq;
use crate::ast;
use crate::ast::{ArgView, CallView, ExprView, PipelineView, RedirectsView};
use crate::builtins;
use crate::builtins::Builtin;
use crate::error;
use crate::error::ErrorView;
use crate::expr::ScopeSeq;
use crate::lex;
use crate::lex::{Class, StepView, TokenKindView, TokenView};
use crate::mux::keys;
use crate::parse;
use crate::registry;
use crate::signature;
use crate::signature::{BoundCallView, Shape, SignatureView, SlotView};
use crate::text;
use crate::value::ValueView;
use vstd::prelude::*;

verus! {

/// A run of a class ends where a character of another stands.
pub(crate) proof fn run_is(s: Seq<char>, i: int, j: int, class: Class)
    requires
        0 <= i <= j <= s.len(),
        forall|k: int| i <= k < j ==> lex::in_class(class, #[trigger] s[k]),
        j == s.len() || !lex::in_class(class, s[j]),
    ensures
        lex::run_end(s, i, class) == j,
    decreases j - i,
{
    if i < j {
        run_is(s, i + 1, j, class);
    }
}

/// A word that starts with a letter is a bareword.
pub(crate) proof fn word_token(s: Seq<char>, i: int, replies: ReplySeq)
    requires
        0 <= i < s.len(),
        text::ascii_letter(s[i]),
    ensures
        ({
            let j = lex::run_end(s, i, Class::Bareword);
            &&& i < j <= s.len()
            &&& lex::lex_step(s, i, replies) == lex::token_step(
                s,
                i,
                j,
                TokenKindView::Bareword(s.subrange(i, j)),
            )
        }),
{
    let j = lex::run_end(s, i, Class::Bareword);
    assert(lex::bareword_char(s[i]));
    assert(j == lex::run_end(s, i + 1, Class::Bareword));
    lex::run_end_is(s, i + 1, Class::Bareword);
    let w = s.subrange(i, j);
    assert(w[0] == s[i]);
    assert(seq!['+'][0] == '+' && seq!['-'][0] == '-' && seq!['*'][0] == '*' && seq!['/'][0] == '/'
        && seq!['%'][0] == '%');
}

/// A flag with a long name, up to its end.
pub(crate) proof fn long_flag_token(s: Seq<char>, i: int, replies: ReplySeq)
    requires
        0 <= i,
        i + 2 < s.len(),
        s[i] == '-',
        s[i + 1] == '-',
        lex::flag_char(s[i + 2]),
    ensures
        ({
            let j = lex::run_end(s, i + 2, Class::Flag);
            &&& i + 2 < j <= s.len()
            &&& lex::lex_step(s, i, replies) == lex::long_flag_step(s, i)
        }),
{
    assert(lex::run_end(s, i + 2, Class::Flag) == lex::run_end(s, i + 3, Class::Flag));
    lex::run_end_is(s, i + 3, Class::Flag);
}

/// A decimal number at the end of a line is an integer token.
proof fn number_token(s: Seq<char>, i: int, v: int, replies: ReplySeq)
    requires
        0 <= i < s.len(),
        s.skip(i) == text::decimal_text(v),
        lex::js_safe(v),
    ensures
        lex::lex_step(s, i, replies) == lex::token_step(
            s,
            i,
            s.len() as int,
            TokenKindView::Int(v as i64),
        ),
{
    let t = s.skip(i);
    let n = s.len() as int;
    let digits = if v < 0 {
        text::numeral((-v) as nat)
    } else {
        text::numeral(v as nat)
    };
    text::numeral_denotes(
        if v < 0 {
            (-v) as nat
        } else {
            v as nat
        },
    );
    let first = if v < 0 {
        i + 1
    } else {
        i
    };
    if v < 0 {
        assert(t == seq!['-'] + digits);
    } else {
        assert(t == digits);
    }
    assert forall|k: int| first <= k < n implies lex::in_class(Class::Digit, #[trigger] s[k]) by {
        assert(s[k] == t[k - i]);
        assert(t[k - i] == digits[k - first]);
    }
    assert(s[i] == t[0]);
    if v < 0 {
        assert(t[0] == '-');
        assert(t.skip(1) =~= digits);
        assert(s[i + 1] == t[1]);
        assert(lex::in_class(Class::Digit, s[i + 1]));
    } else {
        assert(lex::in_class(Class::Digit, s[i]));
    }
    run_is(s, first, n, Class::Digit);
    assert(s.subrange(i, n) =~= t);
    assert(lex::number_end(s, i) == (n, false));
    assert(lex::signed_value(t) == v);
}

/// A space is skipped.
pub(crate) proof fn space_is_skipped(s: Seq<char>, i: int, replies: ReplySeq)
    requires
        0 <= i < s.len(),
        s[i] == ' ',
    ensures
        lex::lex_from(s, i, replies) == lex::lex_from(s, i + 1, replies),
{
    lex::lex_step_progress(s, i, replies);
}

/// A token is put before the rest.
pub(crate) proof fn token_goes_first(s: Seq<char>, i: int, t: TokenView, j: int, replies: ReplySeq)
    requires
        0 <= i < j <= s.len(),
        lex::lex_step(s, i, replies) == StepView::Token(t, j),
        lex::lex_from(s, j, replies) is Ok,
    ensures
        lex::lex_from(s, i, replies) == Ok::<Seq<TokenView>, crate::ask::StopView>(
            seq![t] + lex::lex_from(s, j, replies)->Ok_0,
        ),
{
}

/// The outcome of a line of one call alone.
pub open spec fn one_call(o: parse::OutcomeView, c: CallView) -> bool {
    &&& o.errors.len() == 0
    &&& o.line.pipelines.len() == 1
    &&& o.line.pipelines[0].calls == seq![c]
    &&& o.line.pipelines[0].redirects == RedirectsView::none()
}

/// Tokens that are one call to the end are a line of that call.
proof fn tokens_are_one_call(ts: Seq<TokenView>, c: CallView, replies: ReplySeq)
    requires
        ts.len() > 0,
        !(ts[0].kind is Semi),
        parse::call(ts, 0, replies) == (
            Ok::<CallView, crate::ask::StopView>(c),
            ts.len() as int,
        ),
    ensures
        parse::line_from(ts, 0, Seq::empty(), Seq::empty(), replies) matches Ok(o) && one_call(o, c),
{
    let n = ts.len() as int;
    let none = RedirectsView::none();
    assert(parse::redirects_from(ts, n, none, replies) == (
        Ok::<RedirectsView, crate::ask::StopView>(none),
        n,
    ));
    let calls = Seq::<CallView>::empty().push(c);
    assert(calls =~= seq![c]);
    assert(parse::pipeline_calls(ts, 0, Seq::empty(), Seq::empty(), replies) == (
        Ok::<(Seq<CallView>, RedirectsView, Seq<ErrorView>), crate::ask::QueryView>(
            (calls, none, Seq::<ErrorView>::empty()),
        ),
        n,
    ));
    let pl = parse::pipeline_of(calls, none)->Some_0;
    let pls = Seq::<PipelineView>::empty().push(pl);
    assert(parse::line_from(ts, n, pls, Seq::empty(), replies) matches Ok(o) && o.line.pipelines
        == pls && o.errors.len() == 0);
}

/// Barewords up to `n` and none there.
proof fn words_reach(ts: Seq<TokenView>, p: int, n: int)
    requires
        0 <= p <= n <= ts.len(),
        forall|k: int| p <= k < n ==> (#[trigger] ts[k]).kind is Bareword,
        n == ts.len() || !(ts[n].kind is Bareword),
    ensures
        parse::words_end(ts, p) == n,
    decreases n - p,
{
    if p < n {
        words_reach(ts, p + 1, n);
    }
}

/// The head of a call: the first `n` tokens, which are words.
pub open spec fn head_of(ts: Seq<TokenView>, n: int) -> CallView {
    CallView {
        words: parse::words_between(ts, 0, n),
        args: Seq::empty(),
        span: error::merged(ts[0].span, ts[n - 1].span),
    }
}

/// Tokens that are words alone are a call without arguments.
proof fn words_are_a_call(ts: Seq<TokenView>, replies: ReplySeq)
    requires
        ts.len() > 0,
        forall|k: int| 0 <= k < ts.len() ==> (#[trigger] ts[k]).kind is Bareword,
    ensures
        parse::line_from(ts, 0, Seq::empty(), Seq::empty(), replies) matches Ok(o) && one_call(
            o,
            head_of(ts, ts.len() as int),
        ),
{
    let n = ts.len() as int;
    words_reach(ts, 0, n);
    assert(ts[0].kind is Bareword);
    assert(parse::arguments(ts, n, head_of(ts, n), replies) == (
        Ok::<CallView, crate::ask::StopView>(head_of(ts, n)),
        n,
    ));
    tokens_are_one_call(ts, head_of(ts, n), replies);
}

/// Is the call found among some commands under its words, and accepted?
pub open spec fn is_accepted(
    entries: registry::EntrySeq,
    call: CallView,
    scope: ScopeSeq,
    replies: ReplySeq,
) -> bool {
    let words = registry::word_nodes(call.words);
    match registry::longest_prefix(entries, words, words.len() as int) {
        Some((k, n)) => signature::bound_call(
            entries[k].signature,
            call.words.skip(n),
            call,
            scope,
            replies,
        ) is Ok,
        None => false,
    }
}

/// Does the line run one command of the shell, and nothing else?
#[verifier::opaque]
pub open spec fn is_a_command(line: Seq<char>, scope: ScopeSeq, replies: ReplySeq) -> bool {
    match parse::parsed(line, replies) {
        Ok(o) => {
            &&& o.line.pipelines.len() == 1
            &&& o.line.pipelines[0].calls.len() == 1
            &&& one_call(o, o.line.pipelines[0].calls[0])
            &&& is_accepted(
                builtins::builtin_entries(),
                o.line.pipelines[0].calls[0],
                scope,
                replies,
            )
        },
        Err(_) => false,
    }
}

/// The tokens of a line of two words.
proof fn two_words(s: Seq<char>, a: int, replies: ReplySeq) -> (ts: Seq<TokenView>)
    requires
        0 < a,
        a + 1 < s.len(),
        text::ascii_letter(s[0]),
        lex::run_end(s, 0, Class::Bareword) == a,
        s[a] == ' ',
        text::ascii_letter(s[a + 1]),
        lex::run_end(s, a + 1, Class::Bareword) == s.len(),
    ensures
        lex::lexed(s, replies) == Ok::<Seq<TokenView>, crate::ask::StopView>(ts),
        ts.len() == 2,
        ts[0].kind == TokenKindView::Bareword(s.subrange(0, a)),
        ts[1].kind == TokenKindView::Bareword(s.subrange(a + 1, s.len() as int)),
{
    let n = s.len() as int;
    word_token(s, a + 1, replies);
    let t1 = lex::lex_step(s, a + 1, replies)->Token_0;
    assert(lex::lex_from(s, n, replies)->Ok_0 =~= Seq::empty());
    token_goes_first(s, a + 1, t1, n, replies);
    space_is_skipped(s, a, replies);
    word_token(s, 0, replies);
    let t0 = lex::lex_step(s, 0, replies)->Token_0;
    token_goes_first(s, 0, t0, a, replies);
    lex::lexed(s, replies)->Ok_0
}

/// The tokens of a line of three words.
proof fn three_words(s: Seq<char>, a: int, b: int, replies: ReplySeq) -> (ts: Seq<TokenView>)
    requires
        0 < a,
        a + 1 < b,
        b + 1 < s.len(),
        text::ascii_letter(s[0]),
        lex::run_end(s, 0, Class::Bareword) == a,
        s[a] == ' ',
        text::ascii_letter(s[a + 1]),
        lex::run_end(s, a + 1, Class::Bareword) == b,
        s[b] == ' ',
        text::ascii_letter(s[b + 1]),
        lex::run_end(s, b + 1, Class::Bareword) == s.len(),
    ensures
        lex::lexed(s, replies) == Ok::<Seq<TokenView>, crate::ask::StopView>(ts),
        ts.len() == 3,
        ts[0].kind == TokenKindView::Bareword(s.subrange(0, a)),
        ts[1].kind == TokenKindView::Bareword(s.subrange(a + 1, b)),
        ts[2].kind == TokenKindView::Bareword(s.subrange(b + 1, s.len() as int)),
{
    let n = s.len() as int;
    word_token(s, b + 1, replies);
    let t2 = lex::lex_step(s, b + 1, replies)->Token_0;
    assert(lex::lex_from(s, n, replies)->Ok_0 =~= Seq::empty());
    token_goes_first(s, b + 1, t2, n, replies);
    space_is_skipped(s, b, replies);
    word_token(s, a + 1, replies);
    let t1 = lex::lex_step(s, a + 1, replies)->Token_0;
    token_goes_first(s, a + 1, t1, b, replies);
    space_is_skipped(s, a, replies);
    word_token(s, 0, replies);
    let t0 = lex::lex_step(s, 0, replies)->Token_0;
    token_goes_first(s, 0, t0, a, replies);
    lex::lexed(s, replies)->Ok_0
}

/// A command that takes nothing accepts a call of its words alone.
proof fn bare_calls_are_accepted(sig: SignatureView, call: CallView, scope: ScopeSeq, replies: ReplySeq)
    requires
        sig.required.len() == 0,
        sig.optional.len() == 0,
        call.args.len() == 0,
    ensures
        signature::bound_call(sig, call.words.skip(call.words.len() as int), call, scope, replies)
            is Ok,
{
    let none = call.words.skip(call.words.len() as int);
    assert(signature::word_slots(none) =~= Seq::empty());
    assert(signature::expanded(call.args) =~= Seq::empty());
    assert(signature::declared(sig).len() == 0);
}

/// A line that spells the name of a command which takes nothing.
proof fn names_of_two_words(s: Seq<char>, a: int, which: Builtin, scope: ScopeSeq, replies: ReplySeq)
    requires
        s == builtins::name_of(which),
        builtins::required_of(which).len() == 0,
        builtins::optional_of(which).len() == 0,
        0 < a,
        a + 1 < s.len(),
        text::ascii_letter(s[0]),
        lex::run_end(s, 0, Class::Bareword) == a,
        s[a] == ' ',
        text::ascii_letter(s[a + 1]),
        lex::run_end(s, a + 1, Class::Bareword) == s.len(),
    ensures
        is_a_command(s, scope, replies),
{
    reveal(is_a_command);
    let ts = two_words(s, a, replies);
    words_are_a_call(ts, replies);
    let call = head_of(ts, 2);
    let words = registry::word_nodes(call.words);
    assert(words =~= seq![s.subrange(0, a), s.subrange(a + 1, s.len() as int)]);
    reveal_strlit(" ");
    assert(words.take(2) =~= words);
    assert(words.drop_last() =~= seq![s.subrange(0, a)]);
    assert(text::joined(words.drop_last(), " "@) == s.subrange(0, a));
    assert(text::joined(words, " "@) =~= s);
    builtins::every_builtin_is_found(which);
    bare_calls_are_accepted(builtins::signature_of(which), call, scope, replies);
}

proof fn names_of_three_words(
    s: Seq<char>,
    a: int,
    b: int,
    which: Builtin,
    scope: ScopeSeq,
    replies: ReplySeq,
)
    requires
        s == builtins::name_of(which),
        builtins::required_of(which).len() == 0,
        builtins::optional_of(which).len() == 0,
        0 < a,
        a + 1 < b,
        b + 1 < s.len(),
        text::ascii_letter(s[0]),
        lex::run_end(s, 0, Class::Bareword) == a,
        s[a] == ' ',
        text::ascii_letter(s[a + 1]),
        lex::run_end(s, a + 1, Class::Bareword) == b,
        s[b] == ' ',
        text::ascii_letter(s[b + 1]),
        lex::run_end(s, b + 1, Class::Bareword) == s.len(),
    ensures
        is_a_command(s, scope, replies),
{
    reveal(is_a_command);
    let ts = three_words(s, a, b, replies);
    words_are_a_call(ts, replies);
    let call = head_of(ts, 3);
    let words = registry::word_nodes(call.words);
    joined_three(s, a, b, words);
    builtins::every_builtin_is_found(which);
    assert(words.take(3) =~= words);
    bare_calls_are_accepted(builtins::signature_of(which), call, scope, replies);
}

/// Three words joined are the line that they were cut from, and the first two
/// its beginning.
proof fn joined_three(s: Seq<char>, a: int, b: int, words: Seq<Seq<char>>)
    requires
        0 < a,
        a + 1 < b,
        b + 1 < s.len(),
        s[a] == ' ',
        s[b] == ' ',
        words.len() == 3,
        words[0] == s.subrange(0, a),
        words[1] == s.subrange(a + 1, b),
        words[2] == s.subrange(b + 1, s.len() as int),
    ensures
        text::joined(words, " "@) == s,
        text::joined(words.take(2), " "@) == s.subrange(0, b),
{
    reveal_strlit(" ");
    let two = words.drop_last();
    assert(words.take(2) =~= two);
    assert(two.drop_last() =~= seq![words[0]]);
    assert(text::joined(two.drop_last(), " "@) == words[0]);
    assert(text::joined(two, " "@) =~= s.subrange(0, b));
    assert(text::joined(words, " "@) =~= s);
}

/// `mux focus` with a direction.
proof fn focus_lines(s: Seq<char>, scope: ScopeSeq, replies: ReplySeq)
    requires
        s.len() > 10,
        s.subrange(0, 9) == builtins::name_of(Builtin::MuxFocus),
        s[9] == ' ',
        text::ascii_letter(s[10]),
        lex::run_end(s, 10, Class::Bareword) == s.len(),
        lex::run_end(s, 0, Class::Bareword) == 3,
        lex::run_end(s, 4, Class::Bareword) == 9,
        registry::named(builtins::builtin_entries(), s) is None,
        s.skip(10) != "true"@,
        s.skip(10) != "false"@,
    ensures
        is_a_command(s, scope, replies),
{
    reveal(is_a_command);
    reveal_strlit("mux focus");
    let head = s.subrange(0, 9);
    assert(s[0] == head[0] && s[3] == head[3] && s[4] == head[4]);
    let ts = three_words(s, 3, 9, replies);
    words_are_a_call(ts, replies);
    let call = head_of(ts, 3);
    let words = registry::word_nodes(call.words);
    joined_three(s, 3, 9, words);
    builtins::every_builtin_is_found(Builtin::MuxFocus);
    assert(words.take(3) =~= words);
    let entries = builtins::builtin_entries();
    let k = builtins::rank(Builtin::MuxFocus);
    assert(registry::longest_prefix(entries, words, 2) == Some((k, 2int)));
    assert(registry::longest_prefix(entries, words, 3) == Some((k, 2int)));
    let sig = builtins::signature_of(Builtin::MuxFocus);
    let rest = call.words.skip(2);
    let slots = signature::word_slots(rest);
    assert(rest.len() == 1);
    assert(s.subrange(10, s.len() as int) =~= s.skip(10));
    assert(slots.len() == 1);
    assert(slots[0] == SlotView::Value(ValueView::Str(s.skip(10)), rest[0].span));
    assert(signature::expanded(call.args) =~= Seq::empty());
    assert(signature::declared(sig).len() == 1);
    assert(signature::declared(sig)[0].shape == Shape::Str);
    let head_span = ast::words_span_of(call);
    assert(signature::bound_params(sig, 0, slots, Seq::empty(), scope, head_span, replies) is Ok);
    assert(signature::bound_params(sig, 1, slots, Seq::empty(), scope, head_span, replies) is Ok);
}

/// `mux split` with the way to split.
proof fn split_lines(s: Seq<char>, scope: ScopeSeq, replies: ReplySeq)
    requires
        s.len() > 12,
        s.subrange(0, 9) == builtins::name_of(Builtin::MuxSplit),
        s[9] == ' ',
        s[10] == '-',
        s[11] == '-',
        lex::flag_char(s[12]),
        lex::run_end(s, 0, Class::Bareword) == 3,
        lex::run_end(s, 4, Class::Bareword) == 9,
        lex::run_end(s, 12, Class::Flag) == s.len(),
        s.skip(12) == "right"@ || s.skip(12) == "down"@,
    ensures
        is_a_command(s, scope, replies),
{
    reveal(is_a_command);
    reveal_strlit("mux split");
    let n = s.len() as int;
    let head = s.subrange(0, 9);
    assert(s[0] == head[0] && s[3] == head[3] && s[4] == head[4]);
    long_flag_token(s, 10, replies);
    let t2 = lex::lex_step(s, 10, replies)->Token_0;
    assert(lex::lex_from(s, n, replies)->Ok_0 =~= Seq::empty());
    token_goes_first(s, 10, t2, n, replies);
    space_is_skipped(s, 9, replies);
    word_token(s, 4, replies);
    let t1 = lex::lex_step(s, 4, replies)->Token_0;
    token_goes_first(s, 4, t1, 9, replies);
    space_is_skipped(s, 3, replies);
    word_token(s, 0, replies);
    let t0 = lex::lex_step(s, 0, replies)->Token_0;
    token_goes_first(s, 0, t0, 3, replies);
    let ts = lex::lexed(s, replies)->Ok_0;
    assert(ts.len() == 3 && ts[0] == t0 && ts[1] == t1 && ts[2] == t2);
    words_reach(ts, 0, 2);
    let name = s.subrange(12, n);
    assert(name =~= s.skip(12));
    let arg = ArgView::Flag { name, long: true, span: ts[2].span, value: None };
    let call = parse::with_arg(head_of(ts, 2), arg, ts[2].span);
    assert(parse::arguments(ts, 3, call, replies) == (
        Ok::<CallView, crate::ask::StopView>(call),
        3int,
    ));
    tokens_are_one_call(ts, call, replies);
    let words = registry::word_nodes(call.words);
    assert(words =~= seq![s.subrange(0, 3), s.subrange(4, 9)]);
    reveal_strlit(" ");
    assert(words.take(2) =~= words);
    assert(words.drop_last() =~= seq![s.subrange(0, 3)]);
    assert(text::joined(words.drop_last(), " "@) == s.subrange(0, 3));
    assert(text::joined(words, " "@) =~= head);
    builtins::every_builtin_is_found(Builtin::MuxSplit);
    let sig = builtins::signature_of(Builtin::MuxSplit);
    let args = call.args;
    assert(args.drop_last() =~= Seq::empty());
    assert(signature::expanded(args.drop_last()) =~= Seq::empty());
    assert(signature::expanded(args) =~= seq![arg]);
    reveal_strlit("right");
    reveal_strlit("down");
    reveal_with_fuel(signature::flag_index, 3);
    assert(signature::flag_index(sig.flags, name, true) is Some);
    let none = call.words.skip(2);
    assert(signature::word_slots(none) =~= Seq::empty());
    assert(signature::declared(sig).len() == 0);
    reveal_with_fuel(signature::gathered, 2);
}

proof fn kill_pane_line(scope: ScopeSeq, replies: ReplySeq)
    ensures
        is_a_command("mux kill-pane"@, scope, replies),
{
    reveal_strlit("mux kill-pane");
    assert(lex::run_end("mux kill-pane"@, 0, Class::Bareword) == 3) by {
        reveal_with_fuel(lex::run_end, 4);
    }
    assert(lex::run_end("mux kill-pane"@, 4, Class::Bareword) == 13) by {
        reveal_with_fuel(lex::run_end, 10);
    }
    names_of_two_words("mux kill-pane"@, 3, Builtin::MuxKillPane, scope, replies);
}

proof fn zoom_line(scope: ScopeSeq, replies: ReplySeq)
    ensures
        is_a_command("mux zoom"@, scope, replies),
{
    reveal_strlit("mux zoom");
    assert(lex::run_end("mux zoom"@, 0, Class::Bareword) == 3) by {
        reveal_with_fuel(lex::run_end, 4);
    }
    assert(lex::run_end("mux zoom"@, 4, Class::Bareword) == 8) by {
        reveal_with_fuel(lex::run_end, 5);
    }
    names_of_two_words("mux zoom"@, 3, Builtin::MuxZoom, scope, replies);
}

proof fn hide_line(scope: ScopeSeq, replies: ReplySeq)
    ensures
        is_a_command("mux hide"@, scope, replies),
{
    reveal_strlit("mux hide");
    assert(lex::run_end("mux hide"@, 0, Class::Bareword) == 3) by {
        reveal_with_fuel(lex::run_end, 4);
    }
    assert(lex::run_end("mux hide"@, 4, Class::Bareword) == 8) by {
        reveal_with_fuel(lex::run_end, 5);
    }
    names_of_two_words("mux hide"@, 3, Builtin::MuxHide, scope, replies);
}

proof fn session_list_line(scope: ScopeSeq, replies: ReplySeq)
    ensures
        is_a_command("session list"@, scope, replies),
{
    reveal_strlit("session list");
    assert(lex::run_end("session list"@, 0, Class::Bareword) == 7) by {
        reveal_with_fuel(lex::run_end, 8);
    }
    assert(lex::run_end("session list"@, 8, Class::Bareword) == 12) by {
        reveal_with_fuel(lex::run_end, 5);
    }
    names_of_two_words("session list"@, 7, Builtin::SessionList, scope, replies);
}

proof fn session_prev_line(scope: ScopeSeq, replies: ReplySeq)
    ensures
        is_a_command("session prev"@, scope, replies),
{
    reveal_strlit("session prev");
    assert(lex::run_end("session prev"@, 0, Class::Bareword) == 7) by {
        reveal_with_fuel(lex::run_end, 8);
    }
    assert(lex::run_end("session prev"@, 8, Class::Bareword) == 12) by {
        reveal_with_fuel(lex::run_end, 5);
    }
    names_of_two_words("session prev"@, 7, Builtin::SessionPrev, scope, replies);
}

proof fn session_next_line(scope: ScopeSeq, replies: ReplySeq)
    ensures
        is_a_command("session next"@, scope, replies),
{
    reveal_strlit("session next");
    assert(lex::run_end("session next"@, 0, Class::Bareword) == 7) by {
        reveal_with_fuel(lex::run_end, 8);
    }
    assert(lex::run_end("session next"@, 8, Class::Bareword) == 12) by {
        reveal_with_fuel(lex::run_end, 5);
    }
    names_of_two_words("session next"@, 7, Builtin::SessionNext, scope, replies);
}

proof fn window_new_line(scope: ScopeSeq, replies: ReplySeq)
    ensures
        is_a_command("mux window new"@, scope, replies),
{
    reveal_strlit("mux window new");
    assert(lex::run_end("mux window new"@, 0, Class::Bareword) == 3) by {
        reveal_with_fuel(lex::run_end, 4);
    }
    assert(lex::run_end("mux window new"@, 4, Class::Bareword) == 10) by {
        reveal_with_fuel(lex::run_end, 7);
    }
    assert(lex::run_end("mux window new"@, 11, Class::Bareword) == 14) by {
        reveal_with_fuel(lex::run_end, 4);
    }
    names_of_three_words("mux window new"@, 3, 10, Builtin::MuxWindowNew, scope, replies);
}

proof fn window_next_line(scope: ScopeSeq, replies: ReplySeq)
    ensures
        is_a_command("mux window next"@, scope, replies),
{
    reveal_strlit("mux window next");
    assert(lex::run_end("mux window next"@, 0, Class::Bareword) == 3) by {
        reveal_with_fuel(lex::run_end, 4);
    }
    assert(lex::run_end("mux window next"@, 4, Class::Bareword) == 10) by {
        reveal_with_fuel(lex::run_end, 7);
    }
    assert(lex::run_end("mux window next"@, 11, Class::Bareword) == 15) by {
        reveal_with_fuel(lex::run_end, 5);
    }
    names_of_three_words("mux window next"@, 3, 10, Builtin::MuxWindowNext, scope, replies);
}

proof fn window_prev_line(scope: ScopeSeq, replies: ReplySeq)
    ensures
        is_a_command("mux window prev"@, scope, replies),
{
    reveal_strlit("mux window prev");
    assert(lex::run_end("mux window prev"@, 0, Class::Bareword) == 3) by {
        reveal_with_fuel(lex::run_end, 4);
    }
    assert(lex::run_end("mux window prev"@, 4, Class::Bareword) == 10) by {
        reveal_with_fuel(lex::run_end, 7);
    }
    assert(lex::run_end("mux window prev"@, 11, Class::Bareword) == 15) by {
        reveal_with_fuel(lex::run_end, 5);
    }
    names_of_three_words("mux window prev"@, 3, 10, Builtin::MuxWindowPrev, scope, replies);
}

proof fn focus_next_line(scope: ScopeSeq, replies: ReplySeq)
    ensures
        is_a_command("mux focus next"@, scope, replies),
{
    reveal_strlit("mux focus next");
    reveal_strlit("mux focus");
    reveal_strlit("true");
    reveal_strlit("false");
    let s = "mux focus next"@;
    assert(lex::run_end(s, 0, Class::Bareword) == 3) by {
        reveal_with_fuel(lex::run_end, 4);
    }
    assert(lex::run_end(s, 4, Class::Bareword) == 9) by {
        reveal_with_fuel(lex::run_end, 6);
    }
    assert(lex::run_end(s, 10, Class::Bareword) == s.len()) by {
        reveal_with_fuel(lex::run_end, 5);
    }
    assert(s.subrange(0, 9) =~= "mux focus"@);
    assert(s.skip(10)[0] == s[10]);
    builtins::directions_are_no_commands(s);
    focus_lines(s, scope, replies);
}

proof fn focus_left_line(scope: ScopeSeq, replies: ReplySeq)
    ensures
        is_a_command("mux focus left"@, scope, replies),
{
    reveal_strlit("mux focus left");
    reveal_strlit("mux focus");
    reveal_strlit("true");
    reveal_strlit("false");
    let s = "mux focus left"@;
    assert(lex::run_end(s, 0, Class::Bareword) == 3) by {
        reveal_with_fuel(lex::run_end, 4);
    }
    assert(lex::run_end(s, 4, Class::Bareword) == 9) by {
        reveal_with_fuel(lex::run_end, 6);
    }
    assert(lex::run_end(s, 10, Class::Bareword) == s.len()) by {
        reveal_with_fuel(lex::run_end, 5);
    }
    assert(s.subrange(0, 9) =~= "mux focus"@);
    assert(s.skip(10)[0] == s[10]);
    builtins::directions_are_no_commands(s);
    focus_lines(s, scope, replies);
}

proof fn focus_right_line(scope: ScopeSeq, replies: ReplySeq)
    ensures
        is_a_command("mux focus right"@, scope, replies),
{
    reveal_strlit("mux focus right");
    reveal_strlit("mux focus");
    reveal_strlit("true");
    reveal_strlit("false");
    let s = "mux focus right"@;
    assert(lex::run_end(s, 0, Class::Bareword) == 3) by {
        reveal_with_fuel(lex::run_end, 4);
    }
    assert(lex::run_end(s, 4, Class::Bareword) == 9) by {
        reveal_with_fuel(lex::run_end, 6);
    }
    assert(lex::run_end(s, 10, Class::Bareword) == s.len()) by {
        reveal_with_fuel(lex::run_end, 6);
    }
    assert(s.subrange(0, 9) =~= "mux focus"@);
    assert(s.skip(10)[0] == s[10]);
    builtins::directions_are_no_commands(s);
    focus_lines(s, scope, replies);
}

proof fn focus_up_line(scope: ScopeSeq, replies: ReplySeq)
    ensures
        is_a_command("mux focus up"@, scope, replies),
{
    reveal_strlit("mux focus up");
    reveal_strlit("mux focus");
    reveal_strlit("true");
    reveal_strlit("false");
    let s = "mux focus up"@;
    assert(lex::run_end(s, 0, Class::Bareword) == 3) by {
        reveal_with_fuel(lex::run_end, 4);
    }
    assert(lex::run_end(s, 4, Class::Bareword) == 9) by {
        reveal_with_fuel(lex::run_end, 6);
    }
    assert(lex::run_end(s, 10, Class::Bareword) == s.len()) by {
        reveal_with_fuel(lex::run_end, 3);
    }
    assert(s.subrange(0, 9) =~= "mux focus"@);
    assert(s.skip(10)[0] == s[10]);
    builtins::directions_are_no_commands(s);
    focus_lines(s, scope, replies);
}

proof fn focus_down_line(scope: ScopeSeq, replies: ReplySeq)
    ensures
        is_a_command("mux focus down"@, scope, replies),
{
    reveal_strlit("mux focus down");
    reveal_strlit("mux focus");
    reveal_strlit("true");
    reveal_strlit("false");
    let s = "mux focus down"@;
    assert(lex::run_end(s, 0, Class::Bareword) == 3) by {
        reveal_with_fuel(lex::run_end, 4);
    }
    assert(lex::run_end(s, 4, Class::Bareword) == 9) by {
        reveal_with_fuel(lex::run_end, 6);
    }
    assert(lex::run_end(s, 10, Class::Bareword) == s.len()) by {
        reveal_with_fuel(lex::run_end, 5);
    }
    assert(s.subrange(0, 9) =~= "mux focus"@);
    assert(s.skip(10)[0] == s[10]);
    builtins::directions_are_no_commands(s);
    focus_lines(s, scope, replies);
}

proof fn split_right_line(scope: ScopeSeq, replies: ReplySeq)
    ensures
        is_a_command("mux split --right"@, scope, replies),
{
    reveal_strlit("mux split --right");
    reveal_strlit("mux split");
    reveal_strlit("right");
    let s = "mux split --right"@;
    assert(lex::run_end(s, 0, Class::Bareword) == 3) by {
        reveal_with_fuel(lex::run_end, 4);
    }
    assert(lex::run_end(s, 4, Class::Bareword) == 9) by {
        reveal_with_fuel(lex::run_end, 6);
    }
    assert(lex::run_end(s, 12, Class::Flag) == s.len()) by {
        reveal_with_fuel(lex::run_end, 6);
    }
    assert(s.subrange(0, 9) =~= "mux split"@);
    assert(s.skip(12) =~= "right"@);
    split_lines(s, scope, replies);
}

proof fn split_down_line(scope: ScopeSeq, replies: ReplySeq)
    ensures
        is_a_command("mux split --down"@, scope, replies),
{
    reveal_strlit("mux split --down");
    reveal_strlit("mux split");
    reveal_strlit("down");
    let s = "mux split --down"@;
    assert(lex::run_end(s, 0, Class::Bareword) == 3) by {
        reveal_with_fuel(lex::run_end, 4);
    }
    assert(lex::run_end(s, 4, Class::Bareword) == 9) by {
        reveal_with_fuel(lex::run_end, 6);
    }
    assert(lex::run_end(s, 12, Class::Flag) == s.len()) by {
        reveal_with_fuel(lex::run_end, 6);
    }
    assert(s.subrange(0, 9) =~= "mux split"@);
    assert(s.skip(12) =~= "down"@);
    split_lines(s, scope, replies);
}

/// Every key that is bound runs one command of the shell: the line that it
/// stands for parses without an error, names a command, and the command accepts
/// what follows the name.
pub proof fn every_key_binding_is_a_command(key: Seq<char>, scope: ScopeSeq, replies: ReplySeq)
    ensures
        keys::bound_to(key) matches Some(line) ==> is_a_command(line, scope, replies),
{
    split_right_line(scope, replies);
    split_down_line(scope, replies);
    window_new_line(scope, replies);
    window_next_line(scope, replies);
    window_prev_line(scope, replies);
    kill_pane_line(scope, replies);
    focus_next_line(scope, replies);
    focus_left_line(scope, replies);
    focus_right_line(scope, replies);
    focus_up_line(scope, replies);
    focus_down_line(scope, replies);
    zoom_line(scope, replies);
    session_list_line(scope, replies);
    session_prev_line(scope, replies);
    session_next_line(scope, replies);
    hide_line(scope, replies);
}

/// A short flag of one letter before a space.
proof fn short_flag_token(s: Seq<char>, i: int, replies: ReplySeq)
    requires
        0 <= i,
        i + 2 < s.len(),
        s[i] == '-',
        text::ascii_letter(s[i + 1]),
        s[i + 2] == ' ',
    ensures
        lex::lex_step(s, i, replies) == lex::token_step(
            s,
            i,
            i + 2,
            TokenKindView::Flag { name: seq![s[i + 1]], long: false, has_eq: false },
        ),
{
    run_is(s, i + 1, i + 2, Class::Bareword);
    assert(s.subrange(i + 1, i + 2) =~= seq![s[i + 1]]);
    assert(lex::all_letters(seq![s[i + 1]]));
}

/// A flag with its own value is a call of the word before it.
proof fn flag_with_its_value(ts: Seq<TokenView>, name: Seq<char>, v: i64, replies: ReplySeq) -> (c:
    CallView)
    requires
        ts.len() == 3,
        ts[0].kind is Bareword,
        ts[1].kind == (TokenKindView::Flag { name, long: true, has_eq: true }),
        ts[2].kind == TokenKindView::Int(v),
    ensures
        parse::line_from(ts, 0, Seq::empty(), Seq::empty(), replies) matches Ok(o) && one_call(o, c),
        c.words == parse::words_between(ts, 0, 1),
        c.args.len() == 1,
        c.args[0] matches ArgView::Flag { name: n, long, value, .. } && n == name && long && value
            == Some(ExprView::Literal(ValueView::Int(v), ts[2].span)),
{
    words_reach(ts, 0, 1);
    let x = ExprView::Literal(ValueView::Int(v), ts[2].span);
    let span = error::merged(ts[1].span, ast::span_of_expr(x));
    let arg = ArgView::Flag { name, long: true, span, value: Some(x) };
    let c = parse::with_arg(head_of(ts, 1), arg, span);
    assert(parse::arguments(ts, 3, c, replies) == (Ok::<CallView, crate::ask::StopView>(c), 3int));
    assert(parse::argument(ts, 2, replies) == (Ok::<ExprView, crate::ask::StopView>(x), 3int));
    assert(parse::arguments(ts, 1, head_of(ts, 1), replies) == (
        Ok::<CallView, crate::ask::StopView>(c),
        3int,
    ));
    tokens_are_one_call(ts, c, replies);
    c
}

/// A flag and the value after it are a call of the word before them.
proof fn flag_before_its_value(
    ts: Seq<TokenView>,
    name: Seq<char>,
    long: bool,
    v: i64,
    replies: ReplySeq,
) -> (c: CallView)
    requires
        ts.len() == 3,
        ts[0].kind is Bareword,
        ts[1].kind == (TokenKindView::Flag { name, long, has_eq: false }),
        ts[2].kind == TokenKindView::Int(v),
    ensures
        parse::line_from(ts, 0, Seq::empty(), Seq::empty(), replies) matches Ok(o) && one_call(o, c),
        c.words == parse::words_between(ts, 0, 1),
        c.args == seq![
            ArgView::Flag { name, long, span: ts[1].span, value: None },
            ArgView::Positional(ExprView::Literal(ValueView::Int(v), ts[2].span)),
        ],
{
    words_reach(ts, 0, 1);
    let x = ExprView::Literal(ValueView::Int(v), ts[2].span);
    let flag = ArgView::Flag { name, long, span: ts[1].span, value: None };
    let b = parse::with_arg(head_of(ts, 1), flag, ts[1].span);
    let c = parse::with_arg(b, ArgView::Positional(x), ast::span_of_expr(x));
    assert(parse::arguments(ts, 3, c, replies) == (Ok::<CallView, crate::ask::StopView>(c), 3int));
    assert(parse::argument(ts, 2, replies) == (Ok::<ExprView, crate::ask::StopView>(x), 3int));
    assert(parse::arguments(ts, 2, b, replies) == (Ok::<CallView, crate::ask::StopView>(c), 3int));
    assert(parse::arguments(ts, 1, head_of(ts, 1), replies) == (
        Ok::<CallView, crate::ask::StopView>(c),
        3int,
    ));
    tokens_are_one_call(ts, c, replies);
    assert(c.args =~= seq![flag, ArgView::Positional(x)]);
    c
}

/// Without slots no parameter is bound, where none is required.
proof fn no_slots_bind_nothing(
    sig: SignatureView,
    n: nat,
    slots: Seq<SlotView>,
    scope: ScopeSeq,
    head: error::Span,
    replies: ReplySeq,
)
    requires
        sig.required.len() == 0,
        slots.len() == 0,
    ensures
        signature::bound_params(sig, n, slots, Seq::empty(), scope, head, replies) matches Ok(
            (values, closures),
        ) && values.len() == 0 && closures.len() == 0,
    decreases n,
{
    if n > 0 {
        no_slots_bind_nothing(sig, (n - 1) as nat, slots, scope, head, replies);
    }
}

/// What a call of one word gets from a flag with an integer, however the flag
/// is written.
proof fn the_flag_is_bound(
    sig: SignatureView,
    call: CallView,
    k: int,
    v: i64,
    scope: ScopeSeq,
    replies: ReplySeq,
)
    requires
        call.words.len() == 1,
        sig.required.len() == 0,
        0 <= k < sig.flags.len(),
        sig.flags[k].shape == Some(Shape::Int),
        call.args.len() == 1 || call.args.len() == 2,
        call.args[0] matches ArgView::Flag { name, long, value, .. } && {
            &&& long || name.len() == 1
            &&& signature::flag_index(sig.flags, name, long) == Some(k)
            &&& if call.args.len() == 1 {
                value matches Some(ExprView::Literal(ValueView::Int(n), _)) && n == v
            } else {
                &&& value is None
                &&& call.args[1] matches ArgView::Positional(
                    ExprView::Literal(ValueView::Int(n), _),
                ) && n == v
            }
        },
    ensures
        signature::bound_call(sig, call.words.skip(1), call, scope, replies) matches Ok(b)
            && binds_only(b, sig.flags[k].long, v),
{
    let args = call.args;
    reveal_with_fuel(signature::expanded, 3);
    reveal_with_fuel(signature::gathered, 2);
    assert(signature::expanded(args) =~= args);
    let none = call.words.skip(1);
    assert(signature::word_slots(none) =~= Seq::empty());
    let start = signature::GatheredView {
        slots: signature::word_slots(none),
        flags: Seq::empty(),
        closures: Seq::empty(),
    };
    let got = start.with_flag(sig.flags[k].long, ValueView::Int(v));
    assert(got.flags =~= seq![(sig.flags[k].long, ValueView::Int(v))]);
    assert(signature::gather_one(sig, args, 0, start, scope, replies) == Ok::<
        (signature::GatheredView, int),
        crate::ask::StopView,
    >((got, args.len() as int)));
    assert(signature::gathered(sig, args, 0, start, scope, replies) == Ok::<
        signature::GatheredView,
        crate::ask::StopView,
    >(got));
    assert(got.slots.len() == 0);
    no_slots_bind_nothing(
        sig,
        signature::declared(sig).len(),
        got.slots,
        scope,
        ast::words_span_of(call),
        replies,
    );
}

/// A bound call that holds one flag with an integer, and nothing else.
pub open spec fn binds_only(b: BoundCallView, name: Seq<char>, v: i64) -> bool {
    &&& b.positionals.len() == 0
    &&& b.closures.len() == 0
    &&& b.flags == seq![(name, ValueView::Int(v))]
}

/// Does the line call one command by one word, and does a signature bind that
/// call to one flag with an integer, and nothing else?
pub open spec fn calls_with_flag(
    line: Seq<char>,
    head: Seq<char>,
    sig: SignatureView,
    name: Seq<char>,
    v: i64,
    scope: ScopeSeq,
    replies: ReplySeq,
) -> bool {
    match parse::parsed(line, replies) {
        Ok(o) => {
            let call = o.line.pipelines[0].calls[0];
            &&& one_call(o, call)
            &&& registry::word_nodes(call.words) == seq![head]
            &&& signature::bound_call(sig, call.words.skip(1), call, scope, replies) matches Ok(b)
                && binds_only(b, name, v)
        },
        Err(_) => false,
    }
}

/// The tokens of a word, a flag and a number after it.
proof fn three_tokens(
    s: Seq<char>,
    a: int,
    flag: TokenView,
    f: int,
    b: int,
    v: int,
    replies: ReplySeq,
) -> (ts: Seq<TokenView>)
    requires
        0 < a,
        a + 1 < f <= b < s.len(),
        forall|k: int| 0 <= k < a ==> text::ascii_letter(#[trigger] s[k]),
        s[a] == ' ',
        lex::lex_step(s, a + 1, replies) == StepView::Token(flag, f),
        f == b || f + 1 == b && s[f] == ' ',
        s.skip(b) == text::decimal_text(v),
        lex::js_safe(v),
    ensures
        lex::lexed(s, replies) == Ok::<Seq<TokenView>, crate::ask::StopView>(ts),
        ts.len() == 3,
        ts[0].kind == TokenKindView::Bareword(s.subrange(0, a)),
        ts[1] == flag,
        ts[2].kind == TokenKindView::Int(v as i64),
{
    let n = s.len() as int;
    number_token(s, b, v, replies);
    let t2 = lex::lex_step(s, b, replies)->Token_0;
    assert(lex::lex_from(s, n, replies)->Ok_0 =~= Seq::empty());
    token_goes_first(s, b, t2, n, replies);
    if f < b {
        space_is_skipped(s, f, replies);
    }
    token_goes_first(s, a + 1, flag, f, replies);
    space_is_skipped(s, a, replies);
    assert(text::ascii_letter(s[0]));
    assert forall|k: int| 0 <= k < a implies lex::in_class(Class::Bareword, #[trigger] s[k]) by {
        assert(text::ascii_letter(s[k]));
    }
    run_is(s, 0, a, Class::Bareword);
    word_token(s, 0, replies);
    let t0 = lex::lex_step(s, 0, replies)->Token_0;
    token_goes_first(s, 0, t0, a, replies);
    lex::lexed(s, replies)->Ok_0
}

/// `--limit=5` as a line.
pub open spec fn eq_line(head: Seq<char>, name: Seq<char>, v: int) -> Seq<char> {
    head + " --"@ + name + "="@ + text::decimal_text(v)
}

/// `--limit 5` as a line.
pub open spec fn long_line(head: Seq<char>, name: Seq<char>, v: int) -> Seq<char> {
    head + " --"@ + name + " "@ + text::decimal_text(v)
}

/// `-l 5` as a line.
pub open spec fn short_line(head: Seq<char>, c: char, v: int) -> Seq<char> {
    head + " -"@ + seq![c] + " "@ + text::decimal_text(v)
}

/// Where the parts of a line with a long flag stand.
proof fn long_line_parts(s: Seq<char>, gap: char, head: Seq<char>, name: Seq<char>, v: int)
    requires
        s == head + " --"@ + name + seq![gap] + text::decimal_text(v),
        lex::all_letters(head),
        name.len() > 0,
        forall|i: int| 0 <= i < name.len() ==> lex::flag_char(#[trigger] name[i]),
        gap == '=' || gap == ' ',
    ensures
        ({
            let a = head.len() as int;
            let end = a + 3 + name.len();
            &&& end + 1 < s.len()
            &&& forall|i: int| 0 <= i < a ==> text::ascii_letter(#[trigger] s[i])
            &&& s.subrange(0, a) == head
            &&& s[a] == ' '
            &&& s[a + 1] == '-'
            &&& s[a + 2] == '-'
            &&& lex::flag_char(s[a + 3])
            &&& lex::run_end(s, a + 3, Class::Flag) == end
            &&& s.subrange(a + 3, end) == name
            &&& s[end] == gap
            &&& s.skip(end + 1) == text::decimal_text(v)
        }),
{
    reveal_strlit(" --");
    let a = head.len() as int;
    let end = a + 3 + name.len();
    text::numeral_denotes(
        if v < 0 {
            (-v) as nat
        } else {
            v as nat
        },
    );
    assert(s.len() == end + 1 + text::decimal_text(v).len());
    assert(s.skip(end + 1) =~= text::decimal_text(v));
    assert forall|i: int| 0 <= i < a implies text::ascii_letter(#[trigger] s[i]) by {
        assert(s[i] == head[i]);
    }
    assert(s.subrange(0, a) =~= head);
    assert forall|i: int| a + 3 <= i < end implies lex::in_class(Class::Flag, #[trigger] s[i]) by {
        assert(s[i] == name[i - a - 3]);
    }
    assert(lex::in_class(Class::Flag, s[a + 3]));
    assert(s[end] == gap);
    run_is(s, a + 3, end, Class::Flag);
    assert(s.subrange(a + 3, end) =~= name);
}

/// The tokens of a line with a long flag.
proof fn long_line_tokens(
    s: Seq<char>,
    gap: char,
    head: Seq<char>,
    name: Seq<char>,
    v: int,
    replies: ReplySeq,
) -> (ts: Seq<TokenView>)
    requires
        s == head + " --"@ + name + seq![gap] + text::decimal_text(v),
        head.len() > 0,
        lex::all_letters(head),
        name.len() > 0,
        forall|i: int| 0 <= i < name.len() ==> lex::flag_char(#[trigger] name[i]),
        lex::js_safe(v),
        gap == '=' || gap == ' ',
    ensures
        lex::lexed(s, replies) == Ok::<Seq<TokenView>, crate::ask::StopView>(ts),
        ts.len() == 3,
        ts[0].kind == TokenKindView::Bareword(head),
        ts[1].kind == (TokenKindView::Flag { name, long: true, has_eq: gap == '=' }),
        ts[2].kind == TokenKindView::Int(v as i64),
{
    long_line_parts(s, gap, head, name, v);
    let a = head.len() as int;
    let end = a + 3 + name.len();
    long_flag_token(s, a + 1, replies);
    let flag = lex::lex_step(s, a + 1, replies)->Token_0;
    let f = if gap == '=' {
        end + 1
    } else {
        end
    };
    three_tokens(s, a, flag, f, end + 1, v, replies)
}

/// Both long spellings come to the same call.
proof fn long_spellings(
    s: Seq<char>,
    gap: char,
    head: Seq<char>,
    name: Seq<char>,
    k: int,
    v: int,
    sig: SignatureView,
    scope: ScopeSeq,
    replies: ReplySeq,
)
    requires
        s == head + " --"@ + name + seq![gap] + text::decimal_text(v),
        head.len() > 0,
        lex::all_letters(head),
        name.len() > 0,
        forall|i: int| 0 <= i < name.len() ==> lex::flag_char(#[trigger] name[i]),
        lex::js_safe(v),
        gap == '=' || gap == ' ',
        signature::flag_index(sig.flags, name, true) == Some(k),
        0 <= k < sig.flags.len(),
        sig.flags[k].long == name,
        sig.flags[k].shape == Some(Shape::Int),
        sig.required.len() == 0,
    ensures
        calls_with_flag(s, head, sig, name, v as i64, scope, replies),
{
    let ts = long_line_tokens(s, gap, head, name, v, replies);
    let call = if gap == '=' {
        flag_with_its_value(ts, name, v as i64, replies)
    } else {
        flag_before_its_value(ts, name, true, v as i64, replies)
    };
    the_flag_is_bound(sig, call, k, v as i64, scope, replies);
    assert(registry::word_nodes(call.words) =~= seq![head]);
}

/// The ways to write a flag with an integer agree, from the text of the line on:
/// `cmd --limit=5`, `cmd --limit 5` and `cmd -l 5` each parse without an error to
/// one call of `cmd`, and a signature that declares the flag binds each of them to
/// that integer under the flag's long name, and to nothing else.
pub proof fn flag_spellings_agree(
    head: Seq<char>,
    name: Seq<char>,
    c: char,
    v: int,
    sig: SignatureView,
    scope: ScopeSeq,
    replies: ReplySeq,
)
    requires
        head.len() > 0,
        lex::all_letters(head),
        name.len() > 0,
        forall|i: int| 0 <= i < name.len() ==> lex::flag_char(#[trigger] name[i]),
        text::ascii_letter(c),
        lex::js_safe(v),
        signature::flag_index(sig.flags, name, true) matches Some(k) && sig.flags[k].shape == Some(
            Shape::Int,
        ),
        signature::flag_index(sig.flags, seq![c], false) == signature::flag_index(
            sig.flags,
            name,
            true,
        ),
        sig.required.len() == 0,
    ensures
        calls_with_flag(eq_line(head, name, v), head, sig, name, v as i64, scope, replies),
        calls_with_flag(long_line(head, name, v), head, sig, name, v as i64, scope, replies),
        calls_with_flag(short_line(head, c, v), head, sig, name, v as i64, scope, replies),
{
    signature::flag_index_is_first(sig.flags, name, true);
    let k = signature::flag_index(sig.flags, name, true)->0;
    reveal_strlit("=");
    reveal_strlit(" ");
    assert("="@ =~= seq!['=']);
    assert(" "@ =~= seq![' ']);
    long_spellings(eq_line(head, name, v), '=', head, name, k, v, sig, scope, replies);
    long_spellings(long_line(head, name, v), ' ', head, name, k, v, sig, scope, replies);
    short_spelling(head, c, name, k, v, sig, scope, replies);
}

proof fn short_spelling(
    head: Seq<char>,
    c: char,
    name: Seq<char>,
    k: int,
    v: int,
    sig: SignatureView,
    scope: ScopeSeq,
    replies: ReplySeq,
)
    requires
        head.len() > 0,
        lex::all_letters(head),
        text::ascii_letter(c),
        lex::js_safe(v),
        signature::flag_index(sig.flags, seq![c], false) == Some(k),
        0 <= k < sig.flags.len(),
        sig.flags[k].long == name,
        sig.flags[k].shape == Some(Shape::Int),
        sig.required.len() == 0,
    ensures
        calls_with_flag(short_line(head, c, v), head, sig, name, v as i64, scope, replies),
{
    reveal_strlit(" -");
    reveal_strlit(" ");
    let s = short_line(head, c, v);
    let a = head.len() as int;
    let b = a + 4;
    text::numeral_denotes(
        if v < 0 {
            (-v) as nat
        } else {
            v as nat
        },
    );
    assert(s.skip(b) =~= text::decimal_text(v));
    assert(s.len() == b + text::decimal_text(v).len());
    assert forall|i: int| 0 <= i < a implies text::ascii_letter(#[trigger] s[i]) by {
        assert(s[i] == head[i]);
    }
    assert(s.subrange(0, a) =~= head);
    assert(s[a] == ' ' && s[a + 1] == '-' && s[a + 2] == c && s[a + 3] == ' ');
    short_flag_token(s, a + 1, replies);
    let flag = lex::lex_step(s, a + 1, replies)->Token_0;
    let ts = three_tokens(s, a, flag, a + 3, b, v, replies);
    let call = flag_before_its_value(ts, seq![c], false, v as i64, replies);
    the_flag_is_bound(sig, call, k, v as i64, scope, replies);
    assert(registry::word_nodes(call.words) =~= seq![head]);
}

} // verus!
