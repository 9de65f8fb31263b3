//! What selectors, closures as arguments, fractions and misspelled commands come to.

use crate::ask;
use crate::ask::{QueryView, ReplySeq, ReplyView, StopView};
use crate::ast::{ArgView, CallView, ClosureView, ExprView, WordView};
use crate::callable;
use crate::callable::{FaultView, SelectorView};
use crate::error;
use crate::error::{ErrorKind, Span};
use crate::expr::{NativeClosureView, ScopeSeq};
use crate::laws::texts;
use crate::lex;
use crate::lex::{Class, InterpPartView, StepView, TokenKindView};
use crate::registry;
use crate::registry::EntrySeq;
use crate::signature;
use crate::signature::{SignatureView, SlotView};
use crate::spelling;
use crate::text;
use crate::value::ValueView;
use vstd::prelude::*;

verus! {

/// A word of a selector: no white space, no equals sign.
pub open spec fn solid(s: Seq<char>) -> bool {
    s.len() > 0 && forall|i: int|
        0 <= i < s.len() ==> !text::whitespace(#[trigger] s[i]) && s[i] != '='
}

/// A dotted path selects field by field: its pieces are the names, and glued with
/// dots they are the path. A name behind `@` asks the host for the function of that
/// name, and what has an arrow in it is handed to the host as it is.
pub proof fn selectors_are_read(s: Seq<char>, replies: ReplySeq)
    requires
        solid(s),
    ensures
        s[0] != '@' ==> (callable::resolved(s, replies) matches Ok(SelectorView::Field(path))
            && texts::glued(path, '.', 0) == s && forall|k: int, m: int|
            0 <= k < path.len() && 0 <= m < path[k].len() ==> #[trigger] path[k][m] != '.'),
        s[0] == '@' && s.len() > 1 ==> callable::resolved(s, replies) == (match ask::reply_to(
            replies,
            QueryView::LookupFn(s.skip(1)),
        ) {
            Some(ReplyView::Handle(h)) => Ok::<SelectorView, FaultView>(
                SelectorView::Callable(h),
            ),
            Some(ReplyView::Refused(msg)) => Err(FaultView::Message(msg)),
            _ => Err(FaultView::Need(QueryView::LookupFn(s.skip(1)))),
        }),
{
    assert(!text::whitespace(s[0]) && !text::whitespace(s[s.len() - 1]));
    assert(text::trimmed_start(s) == s);
    assert(text::trimmed(s) == s);
    reveal_strlit("=>");
    assert(!text::contains(s, "=>"@)) by {
        if text::contains(s, "=>"@) {
            let j = choose|j: int| #[trigger] text::matches_at(s, j, "=>"@);
            assert(s.subrange(j, j + 2)[0] == "=>"@[0]);
            assert(s[j] == '=');
        }
    }
    assert(!callable::has_space(s));
    texts::splitting_and_joining_undo_each_other(s, '.');
    assert(s.subrange(1, s.len() as int) =~= s.skip(1));
}

/// A function written in the host's language is handed to the host, without the
/// space around it.
pub proof fn functions_are_handed_to_the_host(a: Seq<char>, b: Seq<char>, replies: ReplySeq)
    requires
        a.len() > 0,
        !text::whitespace(a[0]),
        b.len() > 0,
        !text::whitespace(b.last()),
    ensures
        callable::resolved(a + seq!['=', '>'] + b, replies) == (match ask::reply_to(
            replies,
            QueryView::CompileFn(a + seq!['=', '>'] + b),
        ) {
            Some(ReplyView::Handle(h)) => Ok::<SelectorView, FaultView>(
                SelectorView::Callable(h),
            ),
            Some(ReplyView::Refused(msg)) => Err(FaultView::Message(msg)),
            _ => Err(FaultView::Need(QueryView::CompileFn(a + seq!['=', '>'] + b))),
        }),
{
    let s = a + seq!['=', '>'] + b;
    assert(s[0] == a[0]);
    assert(s.last() == b.last());
    assert(text::trimmed_start(s) == s);
    assert(text::trimmed(s) == s);
    reveal_strlit("=>");
    assert(s.subrange(a.len() as int, a.len() as int + 2) =~= "=>"@);
    assert(text::matches_at(s, a.len() as int, "=>"@));
}

/// A closure given as an argument is bound under the name of the parameter it stands
/// for, with the variables it can see; the parameter itself has no value.
pub proof fn closures_are_bound_by_name(
    sig: SignatureView,
    call: CallView,
    c: ClosureView,
    span: Span,
    scope: ScopeSeq,
    replies: ReplySeq,
)
    requires
        sig.required.len() + sig.optional.len() == 1,
        call.args == seq![ArgView::Positional(ExprView::Closure(Box::new(c), span))],
    ensures
        signature::bound_call(sig, Seq::empty(), call, scope, replies) matches Ok(b) && {
            let p = if sig.required.len() == 1 {
                sig.required[0]
            } else {
                sig.optional[0]
            };
            &&& b.positionals == seq![ValueView::Null]
            &&& b.closures == seq![(p.name, NativeClosureView { closure: c, captured: scope })]
            &&& b.flags.len() == 0
        },
{
    let args = call.args;
    reveal_with_fuel(signature::expanded, 2);
    reveal_with_fuel(signature::gathered, 3);
    reveal_with_fuel(signature::bound_params, 3);
    assert(args.last() == args[0]);
    assert(args.drop_last() =~= Seq::empty());
    assert(signature::expanded(args) =~= args);
    let none = Seq::<WordView>::empty();
    assert(signature::word_slots(none) =~= Seq::<SlotView>::empty());
    let slots = Seq::<SlotView>::empty().push(SlotView::Closure(c, span));
    let b = signature::bound_call(sig, none, call, scope, replies)->Ok_0;
    let p = signature::declared(sig)[0];
    assert(signature::declared(sig).len() == 1);
    assert(b.positionals =~= seq![ValueView::Null]);
    assert(b.closures =~= seq![(p.name, NativeClosureView { closure: c, captured: scope })]);
}

/// A fraction is asked of the host as it is written, and is the float that it answers.
pub proof fn fractions_are_asked_for(
    s: Seq<char>,
    i: int,
    whole: Seq<char>,
    part: Seq<char>,
    replies: ReplySeq,
)
    requires
        whole.len() > 0,
        part.len() > 0,
        forall|k: int| 0 <= k < whole.len() ==> '0' <= #[trigger] whole[k] <= '9',
        forall|k: int| 0 <= k < part.len() ==> '0' <= #[trigger] part[k] <= '9',
        0 <= i,
        i + whole.len() + 1 + part.len() <= s.len(),
        s.subrange(i, i + whole.len() + 1 + part.len()) == whole + seq!['.'] + part,
        i + whole.len() + 1 + part.len() == s.len() || s[i + whole.len() + 1 + part.len()] == ' ',
    ensures
        ({
            let t = whole + seq!['.'] + part;
            match ask::reply_to(replies, QueryView::ParseFloat(t)) {
                Some(ReplyView::Float(f)) => if f.finite() {
                    lex::lex_step(s, i, replies) matches StepView::Token(token, j) && j == i
                        + t.len() && token.kind == TokenKindView::Float(f)
                } else {
                    lex::lex_step(s, i, replies) is Stop
                },
                Some(_) => lex::lex_step(s, i, replies) is Stop,
                None => lex::lex_step(s, i, replies) == StepView::Stop(
                    StopView::Need(QueryView::ParseFloat(t)),
                ),
            }
        }),
{
    let t = whole + seq!['.'] + part;
    let own = s.subrange(i, i + t.len());
    let dot = i + whole.len();
    let end = i + t.len();
    assert(own == t);
    assert forall|k: int| i <= k < dot implies lex::in_class(Class::Digit, #[trigger] s[k]) by {
        assert(s[k] == own[k - i]);
        assert(t[k - i] == whole[k - i]);
    }
    assert(s[dot] == own[dot - i]);
    assert(s[dot] == '.');
    assert forall|k: int| dot + 1 <= k < end implies lex::in_class(
        Class::Digit,
        #[trigger] s[k],
    ) by {
        assert(s[k] == own[k - i]);
        assert(t[k - i] == part[k - dot - 1]);
    }
    assert(lex::in_class(Class::Digit, s[i]));
    assert(lex::in_class(Class::Digit, s[dot + 1]));
    spelling::run_is(s, i, dot, Class::Digit);
    spelling::run_is(s, dot + 1, end, Class::Digit);
    assert(lex::number_end(s, i) == (end, true));
}

/// A variable in a double-quoted string is a part of its own, between the texts round
/// it.
pub proof fn strings_hold_their_variables(
    a: Seq<char>,
    name: Seq<char>,
    b: Seq<char>,
    replies: ReplySeq,
)
    requires
        a.len() > 0,
        b.len() > 0,
        plain_inside(a),
        plain_inside(b),
        b[0] == ' ',
        name.len() > 0,
        forall|k: int| 0 <= k < name.len() ==> text::ascii_letter(#[trigger] name[k]),
    ensures
        ({
            let s = seq!['"'] + a + seq!['$'] + name + b + seq!['"'];
            lex::lex_step(s, 0, replies) matches StepView::Token(token, j) && j == s.len()
                && token.kind == TokenKindView::StrInterp(
                seq![
                    InterpPartView::Lit(a),
                    InterpPartView::Var(name),
                    InterpPartView::Lit(b),
                ],
            )
        }),
{
    let s = seq!['"'] + a + seq!['$'] + name + b + seq!['"'];
    let none = Seq::<InterpPartView>::empty();
    let dollar = 1 + a.len() as int;
    let behind = dollar + 1 + name.len();
    let end = behind + b.len();
    assert(s[0] == '"');
    assert forall|k: int| 0 <= k < a.len() implies s[1 + k] == #[trigger] a[k] by {}
    literal_run(s, 0, 1, a, none, Seq::empty());
    assert(s[dollar] == '$');
    assert forall|k: int| dollar + 1 <= k < behind implies lex::in_class(
        Class::Var,
        #[trigger] s[k],
    ) by {
        assert(s[k] == name[k - dollar - 1]);
    }
    assert(s[behind] == b[0]);
    assert(!text::alphanumeric(' '));
    spelling::run_is(s, dollar + 1, behind, Class::Var);
    assert(s.subrange(dollar + 1, behind) =~= name);
    assert(Seq::<char>::empty() + a =~= a);
    let parts = none.push(InterpPartView::Lit(a)).push(InterpPartView::Var(name));
    assert forall|k: int| 0 <= k < b.len() implies s[behind + k] == #[trigger] b[k] by {}
    literal_run(s, 0, behind, b, parts, Seq::empty());
    assert(Seq::<char>::empty() + b =~= b);
    assert(s[end] == '"');
    assert(parts.push(InterpPartView::Lit(b)) =~= seq![
        InterpPartView::Lit(a),
        InterpPartView::Var(name),
        InterpPartView::Lit(b),
    ]);
}

/// No quote, backslash or dollar sign.
pub open spec fn plain_inside(a: Seq<char>) -> bool {
    forall|k: int|
        0 <= k < a.len() ==> #[trigger] a[k] != '"' && a[k] != '\\' && a[k] != '$'
}

proof fn literal_run(
    s: Seq<char>,
    i: int,
    j: int,
    a: Seq<char>,
    parts: Seq<InterpPartView>,
    lit: Seq<char>,
)
    requires
        0 <= j,
        j + a.len() <= s.len(),
        plain_inside(a),
        forall|k: int| 0 <= k < a.len() ==> s[j + k] == #[trigger] a[k],
    ensures
        lex::interp_string(s, i, j, parts, lit) == lex::interp_string(
            s,
            i,
            j + a.len(),
            parts,
            lit + a,
        ),
    decreases a.len(),
{
    if a.len() == 0 {
        assert(lit + a =~= lit);
    } else {
        assert(s[j + 0] == a[0]);
        let rest = a.drop_first();
        assert forall|k: int| 0 <= k < rest.len() implies s[j + 1 + k] == #[trigger] rest[k] by {
            assert(s[j + (k + 1)] == a[k + 1]);
        }
        assert forall|k: int| 0 <= k < rest.len() implies #[trigger] rest[k] != '"' && rest[k]
            != '\\' && rest[k] != '$' by {
            assert(a[k + 1] == rest[k]);
        }
        literal_run(s, i, j + 1, rest, parts, lit.push(a[0]));
        assert(lit.push(a[0]) + rest =~= lit + a);
    }
}

/// A single word that names no command is called unknown, at its place, and the name
/// nearest to it is suggested where one is near.
pub proof fn unknown_words_are_told(entries: EntrySeq, w: WordView)
    ensures
        ({
            let e = registry::unknown_command(entries, seq![w]);
            &&& e.kind == ErrorKind::UnknownCommand
            &&& e.msg == "unknown command `"@ + w.node + "`"@
            &&& e.span == Some(w.span)
            &&& e.help == Some(
                match error::suggestion(w.node, registry::entry_names(entries)) {
                    Some(name) => "did you mean `"@ + name + "`?"@,
                    None => "run `help` to list commands"@,
                },
            )
        }),
{
    let words = seq![w];
    let nodes = registry::word_nodes(words);
    assert(nodes =~= seq![w.node]);
    assert(nodes.take(1) =~= seq![w.node]);
    reveal_with_fuel(registry::near_miss, 2);
    assert(text::joined(nodes.take(1), " "@) == w.node);
    assert(words[0] == w);
    assert(error::merged(w.span, w.span) == w.span);
}

} // verus!
