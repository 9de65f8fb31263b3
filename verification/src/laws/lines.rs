//! How a line is read: from its text to the commands that it runs.

use crate::ask::{ReplySeq, StopView};
use crate::ast::{ArgView, CallView, ExprView, OutputView, PipelineView, RedirectsView};
use crate::error::ErrorView;
use crate::laws::closures;
use crate::laws::grammar;
use crate::lex;
use crate::lex::{Class, Op, StepView, TokenKindView, TokenView};
use crate::parse;
use crate::spelling;
use crate::text;
use crate::value::ValueView;
use vstd::prelude::*;

verus! {

/// What a line is made of: words, numbers, flags, quoted texts, variables, and the
/// bar and the semicolon between commands.
pub enum Item {
    Word(Seq<char>),
    Num(int),
    Flag(Seq<char>),
    Text(Seq<char>),
    Name(Seq<char>),
    Bar,
    Semi,
}

/// How an item is written.
pub open spec fn spelled(item: Item) -> Seq<char> {
    match item {
        Item::Word(w) => w,
        Item::Num(n) => text::decimal_text(n),
        Item::Flag(name) => seq!['-', '-'] + name,
        Item::Text(t) => seq!['\''] + t + seq!['\''],
        Item::Name(name) => seq!['$'] + name,
        Item::Bar => seq!['|'],
        Item::Semi => seq![';'],
    }
}

/// Words, flags and variables are made of letters, numbers fit a double exactly, and
/// a quoted text holds no quote.
pub open spec fn writable(item: Item) -> bool {
    match item {
        Item::Word(w) => letters(w),
        Item::Num(n) => -9_007_199_254_740_992 <= n <= 9_007_199_254_740_992,
        Item::Flag(name) => letters(name),
        Item::Text(t) => forall|k: int| 0 <= k < t.len() ==> #[trigger] t[k] != '\'',
        Item::Name(name) => letters(name),
        _ => true,
    }
}

pub open spec fn letters(w: Seq<char>) -> bool {
    w.len() > 0 && forall|k: int| 0 <= k < w.len() ==> text::ascii_letter(#[trigger] w[k])
}

/// The token of an item.
pub open spec fn token_of(item: Item) -> TokenKindView {
    match item {
        Item::Word(w) => TokenKindView::Bareword(w),
        Item::Num(n) => TokenKindView::Int(n as i64),
        Item::Flag(name) => TokenKindView::Flag { name, long: true, has_eq: false },
        Item::Text(t) => TokenKindView::StrRaw(t),
        Item::Name(name) => TokenKindView::Var(name),
        Item::Bar => TokenKindView::Pipe,
        Item::Semi => TokenKindView::Semi,
    }
}

proof fn item_is_one_token(s: Seq<char>, i: int, j: int, item: Item, replies: ReplySeq)
    requires
        writable(item),
        0 <= i <= j <= s.len(),
        s.subrange(i, j) == spelled(item),
        j == s.len() || s[j] == ' ',
    ensures
        i < j,
        lex::lex_step(s, i, replies) matches StepView::Token(t, k) && k == j && t.kind == token_of(
            item,
        ),
{
    let w = s.subrange(i, j);
    assert(w.len() == j - i);
    match item {
        Item::Word(word) => {
            assert(text::ascii_letter(word[0]));
            assert(s[i] == w[0]);
            spelling::word_token(s, i, replies);
            assert forall|k: int| i <= k < j implies lex::in_class(
                Class::Bareword,
                #[trigger] s[k],
            ) by {
                assert(s[k] == w[k - i]);
                assert(text::ascii_letter(word[k - i]));
            }
            spelling::run_is(s, i, j, Class::Bareword);
        },
        Item::Num(n) => {
            grammar::numbers_are_read_as_written(s, i, j, n, replies);
        },
        Item::Flag(name) => {
            assert(s[i] == w[0] && s[i + 1] == w[1] && s[i + 2] == w[2]);
            assert(text::ascii_letter(name[0]));
            assert(w[2] == name[0]);
            spelling::long_flag_token(s, i, replies);
            assert forall|k: int| i + 2 <= k < j implies lex::in_class(
                Class::Flag,
                #[trigger] s[k],
            ) by {
                assert(s[k] == w[k - i]);
                assert(text::ascii_letter(name[k - i - 2]));
            }
            spelling::run_is(s, i + 2, j, Class::Flag);
            let own = s.subrange(i + 2, j);
            assert(own =~= name) by {
                assert forall|k: int| 0 <= k < own.len() implies #[trigger] own[k] == name[k] by {
                    assert(s[i + 2 + k] == w[2 + k]);
                    assert(w[2 + k] == name[k]);
                }
            }
        },
        Item::Text(t) => {
            assert(s[i] == w[0]);
            assert(s[j - 1] == w[j - i - 1]);
            assert(s.subrange(i + 1, i + 1 + t.len()) =~= t) by {
                assert forall|k: int| 0 <= k < t.len() implies s.subrange(i + 1, i + 1 + t.len())[k]
                    == t[k] by {
                    assert(s[i + 1 + k] == w[1 + k]);
                }
            }
            closures::raw_strings_are_read_as_written(s, i, t, replies);
        },
        Item::Name(name) => {
            assert(s[i] == w[0]);
            assert(s.subrange(i + 1, i + 1 + name.len()) =~= name) by {
                assert forall|k: int| 0 <= k < name.len() implies s.subrange(
                    i + 1,
                    i + 1 + name.len(),
                )[k] == name[k] by {
                    assert(s[i + 1 + k] == w[1 + k]);
                }
            }
            closures::variables_are_read_as_written(s, i, name, replies);
        },
        Item::Bar => {
            assert(s[i] == w[0]);
        },
        Item::Semi => {
            assert(s[i] == w[0]);
        },
    }
}

/// Items written one behind the other, with a space between them.
pub open spec fn line_text(items: Seq<Item>, i: int) -> Seq<char>
    decreases items.len() - i,
{
    if !(0 <= i < items.len()) {
        Seq::empty()
    } else if i + 1 == items.len() {
        spelled(items[i])
    } else {
        spelled(items[i]) + seq![' '] + line_text(items, i + 1)
    }
}

/// What may stand behind a line: nothing, or a comment.
pub open spec fn remark(tail: Seq<char>) -> bool {
    tail.len() == 0 || (tail.len() >= 2 && tail[0] == ' ' && tail[1] == '#')
}

proof fn first_of_the_rest(
    items: Seq<Item>,
    i: int,
    tail: Seq<char>,
    s: Seq<char>,
    p: int,
)
    requires
        0 <= i < items.len(),
        0 <= p <= s.len(),
        remark(tail),
        s.skip(p) == line_text(items, i) + tail,
    ensures
        ({
            let q = p + spelled(items[i]).len();
            &&& q <= s.len()
            &&& s.subrange(p, q) == spelled(items[i])
            &&& i + 1 < items.len() ==> q < s.len() && s[q] == ' ' && s.skip(q + 1) == line_text(
                items,
                i + 1,
            ) + tail
            &&& i + 1 == items.len() && tail.len() == 0 ==> q == s.len()
            &&& i + 1 == items.len() && tail.len() > 0 ==> q + 1 < s.len() && s[q] == ' ' && s[q
                + 1] == '#'
        }),
{
    let w = spelled(items[i]);
    let q = p + w.len();
    let rest = s.skip(p);
    let more = if i + 1 < items.len() {
        seq![' '] + (line_text(items, i + 1) + tail)
    } else {
        tail
    };
    assert(rest =~= w + more);
    assert(rest.len() == s.len() - p);
    assert(s.subrange(p, q) =~= rest.subrange(0, w.len() as int));
    assert(rest.subrange(0, w.len() as int) =~= w);
    let behind = s.skip(q);
    assert(behind =~= rest.skip(w.len() as int));
    assert(rest.skip(w.len() as int) =~= more);
    if i + 1 < items.len() {
        assert(behind[0] == ' ');
        assert(s.skip(q + 1) =~= behind.skip(1));
        assert(more.skip(1) =~= line_text(items, i + 1) + tail);
    } else if tail.len() > 0 {
        assert(behind[0] == tail[0]);
        assert(behind[1] == tail[1]);
    }
}

proof fn tokens_follow(
    items: Seq<Item>,
    i: int,
    tail: Seq<char>,
    s: Seq<char>,
    p: int,
    replies: ReplySeq,
)
    requires
        forall|k: int| 0 <= k < items.len() ==> writable(#[trigger] items[k]),
        0 <= i < items.len(),
        0 <= p <= s.len(),
        remark(tail),
        s.skip(p) == line_text(items, i) + tail,
    ensures
        lex::lex_from(s, p, replies) matches Ok(ts) && ts.len() == items.len() - i && forall|
            k: int,
        |
            0 <= k < ts.len() ==> (#[trigger] ts[k]).kind == token_of(items[i + k]),
    decreases items.len() - i,
{
    let w = spelled(items[i]);
    let q = p + w.len();
    assert(writable(items[i]));
    first_of_the_rest(items, i, tail, s, p);
    item_is_one_token(s, p, q, items[i], replies);
    if i + 1 < items.len() {
        tokens_follow(items, i + 1, tail, s, q + 1, replies);
        spelling::space_is_skipped(s, q, replies);
    } else if tail.len() == 0 {
        assert(lex::lex_from(s, q, replies)->Ok_0 =~= Seq::empty());
    } else {
        spelling::space_is_skipped(s, q, replies);
        assert(lex::lex_step(s, q + 1, replies) is End);
        assert(lex::lex_from(s, q + 1, replies)->Ok_0 =~= Seq::empty());
    }
    let t = lex::lex_step(s, p, replies)->Token_0;
    spelling::token_goes_first(s, p, t, q, replies);
    let more = lex::lex_from(s, q, replies)->Ok_0;
    let ts = lex::lex_from(s, p, replies)->Ok_0;
    assert forall|k: int| 0 <= k < ts.len() implies (#[trigger] ts[k]).kind == token_of(
        items[i + k],
    ) by {
        if k > 0 {
            assert(ts[k] == more[k - 1]);
            assert(items[i + 1 + (k - 1)] == items[i + k]);
        }
    }
}

/// The tokens of a line are those of its items, in their order; a comment behind them
/// says nothing.
pub proof fn items_are_read_in_order(items: Seq<Item>, tail: Seq<char>, replies: ReplySeq)
    requires
        items.len() > 0,
        remark(tail),
        forall|k: int| 0 <= k < items.len() ==> writable(#[trigger] items[k]),
    ensures
        lex::lexed(line_text(items, 0) + tail, replies) matches Ok(ts) && ts.len() == items.len()
            && forall|k: int| 0 <= k < ts.len() ==> (#[trigger] ts[k]).kind == token_of(items[k]),
{
    let s = line_text(items, 0) + tail;
    assert(s.skip(0) =~= s);
    tokens_follow(items, 0, tail, s, 0, replies);
}

/// A command: where its words start, where its arguments start, and where it ends.
pub type Place = (int, int, int);

pub open spec fn is_word(item: Item) -> bool {
    item is Word
}

pub open spec fn is_argument(item: Item) -> bool {
    item is Num || item is Flag || item is Text || item is Name || item is Word
}

/// A command stands at a place: some words, and then arguments, the first of which
/// is no word.
pub open spec fn command_at(items: Seq<Item>, at: Place) -> bool {
    &&& 0 <= at.0 < at.1 <= at.2 <= items.len()
    &&& forall|k: int| at.0 <= k < at.1 ==> is_word(#[trigger] items[k])
    &&& forall|k: int| at.1 <= k < at.2 ==> is_argument(#[trigger] items[k])
    &&& at.1 < at.2 ==> !is_word(items[at.1])
    &&& at.2 < items.len() ==> items[at.2] is Bar || items[at.2] is Semi
}

/// The commands of a pipeline stand one behind the other, with a bar between them.
pub open spec fn pipeline_at(items: Seq<Item>, places: Seq<Place>) -> bool {
    &&& places.len() > 0
    &&& forall|c: int| 0 <= c < places.len() ==> command_at(items, #[trigger] places[c])
    &&& forall|c: int|
        0 <= c < places.len() - 1 ==> (#[trigger] places[c]).2 < items.len()
            && items[places[c].2] is Bar && places[c + 1].0 == places[c].2 + 1
    &&& places.last().2 < items.len() ==> items[places.last().2] is Semi
}

/// The pipelines of a line stand one behind the other, with a semicolon between them.
pub open spec fn line_at(items: Seq<Item>, line: Seq<Seq<Place>>) -> bool {
    &&& line.len() > 0
    &&& forall|l: int| 0 <= l < line.len() ==> pipeline_at(items, #[trigger] line[l])
    &&& line[0][0].0 == 0
    &&& line.last().last().2 == items.len()
    &&& forall|l: int|
        0 <= l < line.len() - 1 ==> line[l + 1][0].0 == (#[trigger] line[l]).last().2 + 1
}

/// An argument says what an item says.
pub open spec fn argument_is(arg: ArgView, item: Item) -> bool {
    match item {
        Item::Num(n) => arg matches ArgView::Positional(ExprView::Literal(ValueView::Int(m), _)) && m
            == n,
        Item::Text(t) => arg matches ArgView::Positional(ExprView::Literal(ValueView::Str(u), _))
            && u == t,
        Item::Word(w) => arg matches ArgView::Positional(ExprView::Bareword(u, _)) && u == w,
        Item::Name(name) => arg matches ArgView::Positional(ExprView::Var(u, _)) && u == name,
        Item::Flag(name) => arg matches ArgView::Flag { name: u, long, span, value } && u == name
            && long && value is None,
        _ => false,
    }
}

/// A call has the words and the arguments of the command at a place.
pub open spec fn call_is(c: CallView, items: Seq<Item>, at: Place) -> bool {
    &&& c.words.len() == at.1 - at.0
    &&& forall|k: int|
        0 <= k < c.words.len() ==> items[at.0 + k] == Item::Word((#[trigger] c.words[k]).node)
    &&& c.args.len() == at.2 - at.1
    &&& forall|k: int| 0 <= k < c.args.len() ==> argument_is(#[trigger] c.args[k], items[at.1 + k])
}

spec fn tokens_match(ts: Seq<TokenView>, items: Seq<Item>) -> bool {
    &&& ts.len() == items.len()
    &&& forall|k: int| 0 <= k < ts.len() ==> (#[trigger] ts[k]).kind == token_of(items[k])
    &&& forall|k: int| 0 <= k < items.len() ==> writable(#[trigger] items[k])
}

proof fn words_reach(ts: Seq<TokenView>, items: Seq<Item>, p: int, at: Place)
    requires
        tokens_match(ts, items),
        command_at(items, at),
        at.0 <= p <= at.1,
    ensures
        parse::words_end(ts, p) == at.1,
    decreases at.1 - p,
{
    if p < at.1 {
        assert(is_word(items[p]));
        assert(ts[p].kind == token_of(items[p]));
        words_reach(ts, items, p + 1, at);
    } else if p < ts.len() {
        assert(ts[p].kind == token_of(items[p]));
    }
}

proof fn arguments_follow(
    ts: Seq<TokenView>,
    items: Seq<Item>,
    at: Place,
    p: int,
    c: CallView,
    replies: ReplySeq,
)
    requires
        tokens_match(ts, items),
        command_at(items, at),
        at.1 <= p <= at.2,
        call_is(c, items, (at.0, at.1, p)),
    ensures
        parse::arguments(ts, p, c, replies) matches (Ok(d), q) && q == at.2 && call_is(
            d,
            items,
            at,
        ),
    decreases at.2 - p,
{
    if p < at.2 {
        assert(is_argument(items[p]));
        assert(writable(items[p]));
        assert(ts[p].kind == token_of(items[p]));
        let (arg, span) = match items[p] {
            Item::Flag(name) => (
                ArgView::Flag { name, long: true, span: ts[p].span, value: None },
                ts[p].span,
            ),
            _ => {
                let x = parse::argument(ts, p, replies).0->Ok_0;
                (ArgView::Positional(x), crate::ast::span_of_expr(x))
            },
        };
        assert(argument_is(arg, items[p]));
        let d = parse::with_arg(c, arg, span);
        assert(call_is(d, items, (at.0, at.1, p + 1))) by {
            assert forall|k: int| 0 <= k < d.args.len() implies argument_is(
                #[trigger] d.args[k],
                items[at.1 + k],
            ) by {
                if k < c.args.len() {
                    assert(d.args[k] == c.args[k]);
                }
            }
        }
        arguments_follow(ts, items, at, p + 1, d, replies);
    } else if p < ts.len() {
        assert(ts[p].kind == token_of(items[p]));
    }
}

proof fn command_is_a_call(
    ts: Seq<TokenView>,
    items: Seq<Item>,
    at: Place,
    replies: ReplySeq,
)
    requires
        tokens_match(ts, items),
        command_at(items, at),
    ensures
        parse::call(ts, at.0, replies) matches (Ok(c), q) && q == at.2 && call_is(c, items, at),
{
    words_reach(ts, items, at.0, at);
    let words = parse::words_between(ts, at.0, at.1);
    let c = CallView {
        words,
        args: Seq::empty(),
        span: crate::error::merged(ts[at.0].span, ts[at.1 - 1].span),
    };
    assert forall|k: int| 0 <= k < words.len() implies items[at.0 + k] == Item::Word(
        (#[trigger] words[k]).node,
    ) by {
        assert(is_word(items[at.0 + k]));
        assert(ts[at.0 + k].kind == token_of(items[at.0 + k]));
    }
    assert(call_is(c, items, (at.0, at.1, at.1)));
    arguments_follow(ts, items, at, at.1, c, replies);
}

proof fn pipeline_follows(
    ts: Seq<TokenView>,
    items: Seq<Item>,
    places: Seq<Place>,
    c: int,
    done: Seq<CallView>,
    errors: Seq<ErrorView>,
    replies: ReplySeq,
)
    requires
        tokens_match(ts, items),
        pipeline_at(items, places),
        0 <= c < places.len(),
        done.len() == c,
        forall|k: int| 0 <= k < c ==> call_is(#[trigger] done[k], items, places[k]),
    ensures
        parse::pipeline_calls(ts, places[c].0, done, errors, replies) matches (Ok((calls, redirects, more)), q)
            && q == places.last().2 && redirects == RedirectsView::none() && more == errors
            && calls.len() == places.len() && forall|k: int|
            0 <= k < places.len() ==> call_is(#[trigger] calls[k], items, places[k]),
    decreases places.len() - c,
{
    let at = places[c];
    assert(command_at(items, at));
    command_is_a_call(ts, items, at, replies);
    let one = parse::call(ts, at.0, replies).0->Ok_0;
    if at.2 < ts.len() {
        assert(ts[at.2].kind == token_of(items[at.2]));
    }
    let none = RedirectsView::none();
    assert(parse::redirects_from(ts, at.2, none, replies) == (
        Ok::<RedirectsView, StopView>(none),
        at.2,
    ));
    let more = done.push(one);
    assert forall|k: int| 0 <= k < c + 1 implies call_is(#[trigger] more[k], items, places[k]) by {
        if k < c {
            assert(more[k] == done[k]);
        }
    }
    if c + 1 < places.len() {
        assert(items[places[c].2] is Bar);
        pipeline_follows(ts, items, places, c + 1, more, errors, replies);
    }
}

/// A pipeline runs the commands at some places, one into the other, and is not
/// redirected.
pub open spec fn pipeline_is(p: PipelineView, items: Seq<Item>, places: Seq<Place>) -> bool {
    &&& p.redirects.input is None
    &&& p.redirects.output is None
    &&& p.calls.len() == places.len()
    &&& forall|c: int| 0 <= c < places.len() ==> call_is(#[trigger] p.calls[c], items, places[c])
}

proof fn line_follows(
    ts: Seq<TokenView>,
    items: Seq<Item>,
    line: Seq<Seq<Place>>,
    l: int,
    done: Seq<PipelineView>,
    replies: ReplySeq,
)
    requires
        tokens_match(ts, items),
        line_at(items, line),
        0 <= l < line.len(),
        done.len() == l,
        forall|k: int| 0 <= k < l ==> pipeline_is(#[trigger] done[k], items, line[k]),
    ensures
        parse::line_from(ts, line[l][0].0, done, Seq::empty(), replies) matches Ok(o)
            && o.errors.len() == 0 && o.line.pipelines.len() == line.len() && forall|k: int|
            0 <= k < line.len() ==> pipeline_is(#[trigger] o.line.pipelines[k], items, line[k]),
    decreases line.len() - l,
{
    let places = line[l];
    assert(pipeline_at(items, places));
    let first = places[0];
    let last = places.last();
    assert(command_at(items, first));
    assert(command_at(items, places[places.len() - 1]));
    pipeline_follows(ts, items, places, 0, Seq::empty(), Seq::empty(), replies);
    assert(ts[first.0].kind == token_of(items[first.0]));
    assert(is_word(items[first.0]));
    ends_behind(items, places, places.len() - 1);
    let (read, q) = parse::pipeline_calls(ts, first.0, Seq::empty(), Seq::empty(), replies);
    let calls = read->Ok_0.0;
    let pl = parse::pipeline_of(calls, RedirectsView::none())->0;
    assert(pipeline_is(pl, items, places));
    let more = done.push(pl);
    assert forall|k: int| 0 <= k < l + 1 implies pipeline_is(#[trigger] more[k], items, line[k]) by {
        if k < l {
            assert(more[k] == done[k]);
        }
    }
    if l + 1 < line.len() {
        assert(pipeline_at(items, line[l + 1]));
        assert(command_at(items, line[l + 1][0]));
        assert(line[l + 1][0].0 == line[l].last().2 + 1);
        assert(q < ts.len());
        assert(ts[q].kind == token_of(items[q]));
        line_follows(ts, items, line, l + 1, more, replies);
        assert(parse::line_from(ts, q, more, Seq::empty(), replies) == parse::line_from(
            ts,
            q + 1,
            more,
            Seq::empty(),
            replies,
        ));
    }
}

proof fn ends_behind(items: Seq<Item>, places: Seq<Place>, c: int)
    requires
        pipeline_at(items, places),
        0 <= c < places.len(),
    ensures
        places[c].2 > places[0].0,
    decreases c,
{
    assert(command_at(items, places[c]));
    if c > 0 {
        ends_behind(items, places, c - 1);
        assert(places[c - 1].2 < items.len());
    }
}

/// A line is read as it is written: its pipelines in their order, in each the
/// commands in theirs, and in each of those the words and the arguments as they
/// stand. Nothing is found wrong with it, and a comment behind it says nothing.
pub proof fn lines_are_read_as_written(
    items: Seq<Item>,
    line: Seq<Seq<Place>>,
    tail: Seq<char>,
    replies: ReplySeq,
)
    requires
        forall|k: int| 0 <= k < items.len() ==> writable(#[trigger] items[k]),
        line_at(items, line),
        remark(tail),
    ensures
        parse::parsed(line_text(items, 0) + tail, replies) matches Ok(o) && o.errors.len() == 0
            && o.line.pipelines.len() == line.len() && forall|k: int|
            0 <= k < line.len() ==> pipeline_is(#[trigger] o.line.pipelines[k], items, line[k]),
{
    assert(pipeline_at(items, line[0]));
    assert(command_at(items, line[0][0]));
    items_are_read_in_order(items, tail, replies);
    let ts = lex::lexed(line_text(items, 0) + tail, replies)->Ok_0;
    line_follows(ts, items, line, 0, Seq::empty(), replies);
}

/// A redirect behind a command: `<` takes the input from its target, `>` puts the
/// output there, and two of them that touch put it behind what is there.
pub proof fn redirects_are_read(ts: Seq<TokenView>, p: int, replies: ReplySeq)
    requires
        0 <= p,
        p + 2 <= ts.len(),
        p + 2 == ts.len() || ts[p + 2].kind is Semi,
        ts[p + 1].kind is Bareword,
    ensures
        ({
            let target = ExprView::Bareword(ts[p + 1].kind->Bareword_0, ts[p + 1].span);
            let r = parse::redirects_from(ts, p, RedirectsView::none(), replies);
            &&& ts[p].kind == TokenKindView::Op(Op::Gt) ==> {
                &&& r.0 matches Ok(x)
                &&& x.input is None
                &&& x.output == Some(OutputView { target, append: false })
                &&& r.1 == p + 2
            }
            &&& ts[p].kind == TokenKindView::Op(Op::Lt) ==> {
                &&& r.0 matches Ok(x)
                &&& x.input == Some(target)
                &&& x.output is None
                &&& r.1 == p + 2
            }
        }),
{
    reveal_with_fuel(parse::redirects_from, 2);
}

/// Two output arrows that touch put the output behind what is there.
pub proof fn appending_redirects_are_read(ts: Seq<TokenView>, p: int, replies: ReplySeq)
    requires
        0 <= p,
        p + 3 <= ts.len(),
        p + 3 == ts.len() || ts[p + 3].kind is Semi,
        ts[p].kind == TokenKindView::Op(Op::Gt),
        ts[p + 1].kind == TokenKindView::Op(Op::Gt),
        ts[p].span.end == ts[p + 1].span.start,
        ts[p + 2].kind is Bareword,
    ensures
        ({
            let target = ExprView::Bareword(ts[p + 2].kind->Bareword_0, ts[p + 2].span);
            let r = parse::redirects_from(ts, p, RedirectsView::none(), replies);
            &&& r.0 matches Ok(x)
            &&& x.input is None
            &&& x.output == Some(OutputView { target, append: true })
            &&& r.1 == p + 3
        }),
{
    reveal_with_fuel(parse::redirects_from, 2);
}

} // verus!
