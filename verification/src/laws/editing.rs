//! What the keys of the line editor do: what stands before the cursor and after
//! it, what is submitted, and what the history gives back.

use crate::editor;
use crate::editor::{EditorView, EffectsView, Escape};
use crate::text;
use crate::width;
use vstd::prelude::*;

verus! {

/// An editor that waits for a key: nothing unfinished, no paste under way.
pub open spec fn ready(ed: EditorView) -> bool {
    ed.wf() && ed.pending.len() == 0 && !ed.in_paste
}

/// The editor after a key.
pub open spec fn press(ed: EditorView, key: Seq<char>) -> EditorView {
    editor::fed(ed, key).0
}

/// What a key has for the terminal and for the engine.
pub open spec fn outcome(ed: EditorView, key: Seq<char>) -> EffectsView {
    editor::fed(ed, key).1
}

/// The line of the editor: what stands before the cursor and what stands after it.
pub open spec fn stands(ed: EditorView, before: Seq<char>, after: Seq<char>) -> bool {
    ed.buffer == before + after && ed.cursor == before.len()
}

/// Only the line and the cursor are others.
pub open spec fn same_but_the_line(x: EditorView, y: EditorView) -> bool {
    &&& x.history == y.history
    &&& x.hist_idx == y.hist_idx
    &&& x.stashed == y.stashed
    &&& x.pending == y.pending
    &&& x.in_paste == y.in_paste
    &&& x.last_ok == y.last_ok
}

/// Nothing is handed to the engine.
pub open spec fn quiet(fx: EffectsView) -> bool {
    fx.submitted.len() == 0 && !fx.ctrl_c
}

/// The line drawn anew: back to its start, cleared, the prompt, the text, and
/// then back by the columns of what stands after the cursor.
pub open spec fn drawn(ed: EditorView, before: Seq<char>, after: Seq<char>) -> Seq<char> {
    let prompt = if ed.last_ok {
        "\x1b[32m❯\x1b[0m "@
    } else {
        "\x1b[31m❯\x1b[0m "@
    };
    let back = if editor::columns(after) > 0 {
        "\x1b["@ + text::numeral(editor::columns(after) as nat) + "D"@
    } else {
        Seq::empty()
    };
    "\r\x1b[K"@ + prompt + (before + after) + back
}

proof fn drawing(ed: EditorView, before: Seq<char>, after: Seq<char>)
    requires
        stands(ed, before, after),
    ensures
        editor::redrawn(ed) == drawn(ed, before, after),
{
    assert(ed.buffer.skip(ed.cursor) =~= after);
    assert(editor::redrawn(ed) =~= drawn(ed, before, after));
}

proof fn sequences()
    ensures
        "\x1b[A"@ == seq!['\x1b', '[', 'A'],
        "\x1b[B"@ == seq!['\x1b', '[', 'B'],
        "\x1b[C"@ == seq!['\x1b', '[', 'C'],
        "\x1b[D"@ == seq!['\x1b', '[', 'D'],
        "\x1b[H"@ == seq!['\x1b', '[', 'H'],
        "\x1b[F"@ == seq!['\x1b', '[', 'F'],
        "\x1b[1~"@ == seq!['\x1b', '[', '1', '~'],
        "\x1b[7~"@ == seq!['\x1b', '[', '7', '~'],
        "\x1b[4~"@ == seq!['\x1b', '[', '4', '~'],
        "\x1b[8~"@ == seq!['\x1b', '[', '8', '~'],
        "\x1b[3~"@ == seq!['\x1b', '[', '3', '~'],
        "\x1b[200~"@ == seq!['\x1b', '[', '2', '0', '0', '~'],
{
    reveal_strlit("\x1b[A");
    reveal_strlit("\x1b[B");
    reveal_strlit("\x1b[C");
    reveal_strlit("\x1b[D");
    reveal_strlit("\x1b[H");
    reveal_strlit("\x1b[F");
    reveal_strlit("\x1b[1~");
    reveal_strlit("\x1b[7~");
    reveal_strlit("\x1b[4~");
    reveal_strlit("\x1b[8~");
    reveal_strlit("\x1b[3~");
    reveal_strlit("\x1b[200~");
    assert("\x1b[A"@ =~= seq!['\x1b', '[', 'A']);
    assert("\x1b[B"@ =~= seq!['\x1b', '[', 'B']);
    assert("\x1b[C"@ =~= seq!['\x1b', '[', 'C']);
    assert("\x1b[D"@ =~= seq!['\x1b', '[', 'D']);
    assert("\x1b[H"@ =~= seq!['\x1b', '[', 'H']);
    assert("\x1b[F"@ =~= seq!['\x1b', '[', 'F']);
    assert("\x1b[1~"@ =~= seq!['\x1b', '[', '1', '~']);
    assert("\x1b[7~"@ =~= seq!['\x1b', '[', '7', '~']);
    assert("\x1b[4~"@ =~= seq!['\x1b', '[', '4', '~']);
    assert("\x1b[8~"@ =~= seq!['\x1b', '[', '8', '~']);
    assert("\x1b[3~"@ =~= seq!['\x1b', '[', '3', '~']);
    assert("\x1b[200~"@ =~= seq!['\x1b', '[', '2', '0', '0', '~']);
}

/// A whole escape sequence of three or four characters is one step.
proof fn one_escape(ed: EditorView, key: Seq<char>)
    requires
        ready(ed),
        key.len() == 3 || key.len() == 4,
        key[0] == '\x1b',
        key[1] == '[',
        key.len() == 4 ==> text::digit(key[2]),
        editor::csi_final(key.last()),
    ensures
        editor::fed(ed, key) == editor::escaped(
            ed,
            editor::csi_meaning(key),
            editor::no_effects(),
        ),
{
    reveal_with_fuel(editor::csi_from, 3);
    reveal_with_fuel(editor::feed_from, 2);
    assert(ed.pending + key =~= key);
    assert(EditorView { pending: Seq::empty(), ..ed } =~= ed);
    assert(key.subrange(0, key.len() as int) =~= key);
    assert(editor::escape_at(key, 0) == Some((editor::csi_meaning(key), key.len() as int)));
}

proof fn one_character(ed: EditorView, c: char)
    requires
        ready(ed),
        c != '\x1b',
        c != '\r',
        c != '\n',
    ensures
        editor::fed(ed, seq![c]) == editor::typed(ed, c, editor::no_effects()),
{
    reveal_with_fuel(editor::feed_from, 2);
    let key = seq![c];
    assert(ed.pending + key =~= key);
    assert(EditorView { pending: Seq::empty(), ..ed } =~= ed);
}

/// The right arrow takes the cursor past exactly one character, the left arrow
/// back over exactly one, and at the ends of the line neither does anything.
pub proof fn arrows_move_by_one(ed: EditorView, before: Seq<char>, c: char, after: Seq<char>)
    requires
        ready(ed),
    ensures
        stands(ed, before, seq![c] + after) ==> {
            let next = press(ed, "\x1b[C"@);
            &&& stands(next, before + seq![c], after)
            &&& same_but_the_line(next, ed)
            &&& ready(next)
            &&& quiet(outcome(ed, "\x1b[C"@))
            &&& outcome(ed, "\x1b[C"@).echo == drawn(ed, before + seq![c], after)
        },
        stands(ed, before + seq![c], after) ==> {
            let next = press(ed, "\x1b[D"@);
            &&& stands(next, before, seq![c] + after)
            &&& same_but_the_line(next, ed)
            &&& ready(next)
            &&& quiet(outcome(ed, "\x1b[D"@))
            &&& outcome(ed, "\x1b[D"@).echo == drawn(ed, before, seq![c] + after)
        },
        ed.cursor == ed.buffer.len() ==> press(ed, "\x1b[C"@) == ed,
        ed.cursor == 0 ==> press(ed, "\x1b[D"@) == ed,
{
    sequences();
    one_escape(ed, "\x1b[C"@);
    one_escape(ed, "\x1b[D"@);
    assert(editor::csi_meaning("\x1b[C"@) == Escape::Right) by {
        assert("\x1b[C"@[2] != "\x1b[A"@[2] && "\x1b[C"@[2] != "\x1b[B"@[2]);
    }
    assert(editor::csi_meaning("\x1b[D"@) == Escape::Left) by {
        assert("\x1b[D"@[2] != "\x1b[A"@[2] && "\x1b[D"@[2] != "\x1b[B"@[2]);
        assert("\x1b[D"@[2] != "\x1b[C"@[2]);
    }
    if stands(ed, before, seq![c] + after) {
        let next = press(ed, "\x1b[C"@);
        assert(before + (seq![c] + after) =~= (before + seq![c]) + after);
        drawing(next, before + seq![c], after);
        assert(outcome(ed, "\x1b[C"@).echo =~= drawn(ed, before + seq![c], after));
    }
    if stands(ed, before + seq![c], after) {
        let next = press(ed, "\x1b[D"@);
        assert(before + (seq![c] + after) =~= (before + seq![c]) + after);
        drawing(next, before, seq![c] + after);
        assert(outcome(ed, "\x1b[D"@).echo =~= drawn(ed, before, seq![c] + after));
    }
}

/// The two arrows undo each other inside the line.
pub proof fn arrows_undo_each_other(ed: EditorView)
    requires
        ready(ed),
    ensures
        ed.cursor < ed.buffer.len() ==> press(press(ed, "\x1b[C"@), "\x1b[D"@) == ed,
        ed.cursor > 0 ==> press(press(ed, "\x1b[D"@), "\x1b[C"@) == ed,
        ed.cursor < ed.buffer.len() ==> press(ed, "\x1b[C"@).cursor == ed.cursor + 1,
        ed.cursor > 0 ==> press(ed, "\x1b[D"@).cursor == ed.cursor - 1,
        press(ed, "\x1b[C"@).buffer == ed.buffer,
        press(ed, "\x1b[D"@).buffer == ed.buffer,
{
    arrow_steps(ed);
    arrow_steps(press(ed, "\x1b[C"@));
    arrow_steps(press(ed, "\x1b[D"@));
}

proof fn arrow_steps(ed: EditorView)
    requires
        ready(ed),
    ensures
        press(ed, "\x1b[C"@) == (if ed.cursor < ed.buffer.len() {
            EditorView { cursor: ed.cursor + 1, ..ed }
        } else {
            ed
        }),
        press(ed, "\x1b[D"@) == (if ed.cursor > 0 {
            EditorView { cursor: ed.cursor - 1, ..ed }
        } else {
            ed
        }),
        ready(press(ed, "\x1b[C"@)),
        ready(press(ed, "\x1b[D"@)),
{
    sequences();
    one_escape(ed, "\x1b[C"@);
    one_escape(ed, "\x1b[D"@);
    assert("\x1b[C"@[2] != "\x1b[A"@[2] && "\x1b[C"@[2] != "\x1b[B"@[2]);
    assert("\x1b[D"@[2] != "\x1b[A"@[2] && "\x1b[D"@[2] != "\x1b[B"@[2]);
    assert("\x1b[D"@[2] != "\x1b[C"@[2]);
}

/// The keys for the start of the line, and those for its end.
pub open spec fn home_key(key: Seq<char>) -> bool {
    key == "\x1b[H"@ || key == "\x1b[1~"@ || key == "\x1b[7~"@ || key == seq!['\x01']
}

pub open spec fn end_key(key: Seq<char>) -> bool {
    key == "\x1b[F"@ || key == "\x1b[4~"@ || key == "\x1b[8~"@ || key == seq!['\x05']
}

/// Home and End take the cursor to the ends of the line and leave its text.
pub proof fn home_and_end_go_to_the_ends(ed: EditorView, key: Seq<char>)
    requires
        ready(ed),
        home_key(key) || end_key(key),
    ensures
        stands(press(ed, key), Seq::empty(), ed.buffer) <== home_key(key),
        stands(press(ed, key), ed.buffer, Seq::empty()) <== end_key(key),
        same_but_the_line(press(ed, key), ed),
        ready(press(ed, key)),
        quiet(outcome(ed, key)),
        home_key(key) ==> outcome(ed, key).echo == drawn(ed, Seq::empty(), ed.buffer),
        end_key(key) ==> outcome(ed, key).echo == drawn(ed, ed.buffer, Seq::empty()),
{
    sequences();
    assert(Seq::<char>::empty() + ed.buffer =~= ed.buffer);
    assert(ed.buffer + Seq::<char>::empty() =~= ed.buffer);
    let next = press(ed, key);
    if key.len() == 1 {
        one_character(ed, key[0]);
        assert(key =~= seq![key[0]]);
    } else {
        one_escape(ed, key);
        assert(key[2] != 'A' && key[2] != 'B' && key[2] != 'C' && key[2] != 'D');
        if home_key(key) {
            assert(editor::csi_meaning(key) == Escape::Home);
        } else {
            assert(key[2] != 'H' && key[2] != '1' && key[2] != '7');
            assert(editor::csi_meaning(key) == Escape::End);
        }
    }
    if home_key(key) {
        assert(key[key.len() - 1] != 'F');
        drawing(next, Seq::empty(), ed.buffer);
        assert(outcome(ed, key).echo =~= drawn(ed, Seq::empty(), ed.buffer));
    }
    if end_key(key) {
        drawing(next, ed.buffer, Seq::empty());
        assert(outcome(ed, key).echo =~= drawn(ed, ed.buffer, Seq::empty()));
    }
}

/// Delete takes the character after the cursor out of the line, Backspace the one
/// before it; where there is none, nothing changes.
pub proof fn deleting_takes_one_character(
    ed: EditorView,
    before: Seq<char>,
    c: char,
    after: Seq<char>,
    key: Seq<char>,
)
    requires
        ready(ed),
        key == seq!['\x7f'] || key == seq!['\x08'],
    ensures
        stands(ed, before, seq![c] + after) ==> {
            let next = press(ed, "\x1b[3~"@);
            &&& stands(next, before, after)
            &&& same_but_the_line(next, ed)
            &&& quiet(outcome(ed, "\x1b[3~"@))
            &&& outcome(ed, "\x1b[3~"@).echo == drawn(ed, before, after)
        },
        stands(ed, before + seq![c], after) ==> {
            let next = press(ed, key);
            &&& stands(next, before, after)
            &&& same_but_the_line(next, ed)
            &&& quiet(outcome(ed, key))
            &&& outcome(ed, key).echo == drawn(ed, before, after)
        },
        ed.cursor == ed.buffer.len() ==> editor::fed(ed, "\x1b[3~"@) == (ed, editor::no_effects()),
        ed.cursor == 0 ==> editor::fed(ed, key) == (ed, editor::no_effects()),
{
    sequences();
    one_escape(ed, "\x1b[3~"@);
    assert(key =~= seq![key[0]]);
    one_character(ed, key[0]);
    let del = "\x1b[3~"@;
    assert(del.len() == 4 && del[2] == '3');
    assert("\x1b[1~"@[2] == '1' && "\x1b[7~"@[2] == '7' && "\x1b[4~"@[2] == '4' && "\x1b[8~"@[2]
        == '8');
    assert(editor::csi_meaning(del) == Escape::Delete);
    if stands(ed, before, seq![c] + after) {
        let next = press(ed, del);
        assert(next.buffer =~= before + after);
        drawing(next, before, after);
        assert(outcome(ed, del).echo =~= drawn(ed, before, after));
    }
    if stands(ed, before + seq![c], after) {
        let next = press(ed, key);
        assert(next.buffer =~= before + after);
        drawing(next, before, after);
        assert(outcome(ed, key).echo =~= drawn(ed, before, after));
    }
}

/// A printable character goes in before the cursor; Backspace takes it out again
/// and leaves the editor as it was.
pub proof fn typing_inserts(ed: EditorView, before: Seq<char>, c: char, after: Seq<char>)
    requires
        ready(ed),
        !text::control(c),
        stands(ed, before, after),
    ensures
        ({
            let next = press(ed, seq![c]);
            &&& stands(next, before + seq![c], after)
            &&& same_but_the_line(next, ed)
            &&& ready(next)
            &&& quiet(outcome(ed, seq![c]))
            &&& after.len() == 0 ==> outcome(ed, seq![c]).echo == seq![c]
            &&& after.len() > 0 ==> outcome(ed, seq![c]).echo == drawn(
                ed,
                before + seq![c],
                after,
            )
            &&& press(next, seq!['\x7f']) == ed
        }),
{
    one_character(ed, c);
    let next = press(ed, seq![c]);
    assert(ed.buffer.take(ed.cursor) =~= before);
    assert(ed.buffer.skip(ed.cursor) =~= after);
    assert(next.buffer =~= (before + seq![c]) + after);
    drawing(next, before + seq![c], after);
    one_character(next, '\x7f');
    if after.len() == 0 {
        assert(outcome(ed, seq![c]).echo =~= seq![c]);
    } else {
        assert(outcome(ed, seq![c]).echo =~= drawn(ed, before + seq![c], after));
    }
    assert(next.buffer.remove(next.cursor - 1) =~= ed.buffer);
    assert(press(next, seq!['\x7f']) =~= ed);
}

/// Ctrl-U cuts what stands before the cursor, Ctrl-K what stands after it.
pub proof fn cutting_to_the_ends(ed: EditorView, before: Seq<char>, after: Seq<char>)
    requires
        ready(ed),
        stands(ed, before, after),
    ensures
        stands(press(ed, seq!['\x15']), Seq::empty(), after),
        stands(press(ed, seq!['\x0b']), before, Seq::empty()),
        same_but_the_line(press(ed, seq!['\x15']), ed),
        same_but_the_line(press(ed, seq!['\x0b']), ed),
        quiet(outcome(ed, seq!['\x15'])),
        quiet(outcome(ed, seq!['\x0b'])),
        outcome(ed, seq!['\x15']).echo == drawn(ed, Seq::empty(), after),
        outcome(ed, seq!['\x0b']).echo == drawn(ed, before, Seq::empty()),
{
    one_character(ed, '\x15');
    one_character(ed, '\x0b');
    let u = press(ed, seq!['\x15']);
    let k = press(ed, seq!['\x0b']);
    assert(u.buffer =~= Seq::<char>::empty() + after);
    assert(k.buffer =~= before + Seq::<char>::empty());
    drawing(u, Seq::empty(), after);
    drawing(k, before, Seq::empty());
    assert(outcome(ed, seq!['\x15']).echo =~= drawn(ed, Seq::empty(), after));
    assert(outcome(ed, seq!['\x0b']).echo =~= drawn(ed, before, Seq::empty()));
}

/// Every character is a space, or none is.
pub open spec fn all_spaces(s: Seq<char>) -> bool {
    forall|i: int| 0 <= i < s.len() ==> #[trigger] s[i] == ' '
}

pub open spec fn no_space(s: Seq<char>) -> bool {
    forall|i: int| 0 <= i < s.len() ==> #[trigger] s[i] != ' '
}

proof fn back_to(line: Seq<char>, i: int, k: int, spaces: bool)
    requires
        0 <= k <= i <= line.len(),
        forall|m: int| k <= m < i ==> (#[trigger] line[m] == ' ') == spaces,
        k > 0 ==> (line[k - 1] == ' ') != spaces,
    ensures
        editor::back_over(line, i, spaces) == k,
    decreases i - k,
{
    if i > k {
        assert((line[i - 1] == ' ') == spaces);
        back_to(line, i - 1, k, spaces);
    }
}

/// Ctrl-W cuts the word before the cursor, with the spaces behind it.
pub proof fn cutting_a_word(
    ed: EditorView,
    before: Seq<char>,
    word: Seq<char>,
    gap: Seq<char>,
    after: Seq<char>,
)
    requires
        ready(ed),
        stands(ed, before + word + gap, after),
        no_space(word),
        all_spaces(gap),
        word.len() == 0 ==> before.len() == 0,
        before.len() > 0 ==> before.last() == ' ',
    ensures
        stands(press(ed, seq!['\x17']), before, after),
        same_but_the_line(press(ed, seq!['\x17']), ed),
        quiet(outcome(ed, seq!['\x17'])),
        outcome(ed, seq!['\x17']).echo == drawn(ed, before, after),
{
    one_character(ed, '\x17');
    let line = ed.buffer;
    let start = before.len() as int;
    let end = (before + word).len() as int;
    assert forall|m: int| end <= m < ed.cursor implies #[trigger] line[m] == ' ' by {
        assert(line[m] == gap[m - end]);
    }
    assert forall|m: int| start <= m < end implies #[trigger] line[m] != ' ' by {
        assert(line[m] == word[m - start]);
    }
    if end > 0 {
        if word.len() > 0 {
            assert(line[end - 1] == word[word.len() - 1]);
        }
    }
    back_to(line, ed.cursor, end, true);
    if start > 0 {
        assert(line[start - 1] == before.last());
    }
    back_to(line, end, start, false);
    let next = press(ed, seq!['\x17']);
    assert(next.buffer =~= before + after);
    drawing(next, before, after);
    assert(outcome(ed, seq!['\x17']).echo =~= drawn(ed, before, after));
}

/// Ctrl-C leaves the line for an empty one, asks for an abort and submits nothing;
/// Ctrl-L clears the screen and keeps the line.
pub proof fn interrupting_and_clearing(ed: EditorView, before: Seq<char>, after: Seq<char>)
    requires
        ready(ed),
        stands(ed, before, after),
    ensures
        stands(press(ed, seq!['\x03']), Seq::empty(), Seq::empty()),
        press(ed, seq!['\x03']).hist_idx is None,
        press(ed, seq!['\x03']).history == ed.history,
        outcome(ed, seq!['\x03']).ctrl_c,
        outcome(ed, seq!['\x03']).submitted.len() == 0,
        outcome(ed, seq!['\x03']).echo == "^C\r\n"@ + drawn(ed, Seq::empty(), Seq::empty()),
        press(ed, seq!['\x0c']) == ed,
        quiet(outcome(ed, seq!['\x0c'])),
        outcome(ed, seq!['\x0c']).echo == "\x1b[2J\x1b[H"@ + drawn(ed, before, after),
{
    one_character(ed, '\x03');
    one_character(ed, '\x0c');
    let next = press(ed, seq!['\x03']);
    assert(next.buffer =~= Seq::<char>::empty() + Seq::<char>::empty());
    drawing(next, Seq::empty(), Seq::empty());
    drawing(ed, before, after);
    assert(outcome(ed, seq!['\x03']).echo =~= "^C\r\n"@ + drawn(ed, Seq::empty(), Seq::empty()));
    assert(outcome(ed, seq!['\x0c']).echo =~= "\x1b[2J\x1b[H"@ + drawn(ed, before, after));
}

/// Does a line hold anything but white space?
pub open spec fn says_something(line: Seq<char>) -> bool {
    exists|i: int| 0 <= i < line.len() && !text::whitespace(#[trigger] line[i])
}

/// Enter hands over the whole line, wherever the cursor is, and starts an empty
/// one. The line joins the history as its newest, unless it says nothing or is the
/// newest already; of two hundred lines the oldest then leaves.
pub proof fn enter_submits_the_line(ed: EditorView, key: Seq<char>)
    requires
        ready(ed),
        key == seq!['\r'] || key == seq!['\n'] || key == seq!['\r', '\n'],
    ensures
        outcome(ed, key).submitted == seq![ed.buffer],
        outcome(ed, key).echo == seq!['\r', '\n'],
        !outcome(ed, key).ctrl_c,
        stands(press(ed, key), Seq::empty(), Seq::empty()),
        press(ed, key).hist_idx is None,
        ready(press(ed, key)),
        ({
            let known = ed.history;
            let grown = press(ed, key).history;
            let fresh = says_something(ed.buffer) && (known.len() > 0 ==> known.last()
                != ed.buffer);
            &&& !fresh ==> grown == known
            &&& fresh && known.len() < 200 ==> grown == known + seq![ed.buffer]
            &&& fresh && known.len() == 200 ==> seq![known[0]] + grown == known + seq![ed.buffer]
        }),
{
    reveal_with_fuel(editor::feed_from, 2);
    reveal_strlit("\r\n");
    assert("\r\n"@ =~= seq!['\r', '\n']);
    assert(ed.pending + key =~= key);
    assert(EditorView { pending: Seq::empty(), ..ed } =~= ed);
    let fx = editor::no_effects();
    assert(editor::fed(ed, key) == editor::submitted(ed, fx));
    assert(fx.submitted.push(ed.buffer) =~= seq![ed.buffer]);
    assert(fx.echo + "\r\n"@ =~= seq!['\r', '\n']);
    assert(press(ed, key).buffer =~= Seq::<char>::empty() + Seq::<char>::empty());
    editor::remembering_keeps_history(ed.history, ed.buffer);
    assert(says_something(ed.buffer) <==> !editor::blank(ed.buffer));
    let known = ed.history;
    let grown = press(ed, key).history;
    if known.len() > 0 && says_something(ed.buffer) && known.last() != ed.buffer {
        assert(known.push(ed.buffer) =~= known + seq![ed.buffer]);
        if known.len() == 200 {
            assert(seq![known[0]] + grown =~= known + seq![ed.buffer]);
        }
    } else if known.len() == 0 {
        assert(known.push(ed.buffer) =~= known + seq![ed.buffer]);
    }
}

/// The up arrow shows the newest line of the history first, then each time the one
/// before, and stays at the oldest; the down arrow goes the other way and ends at
/// the draft. The cursor is at the end each time.
pub proof fn arrows_walk_the_history(ed: EditorView)
    requires
        ready(ed),
    ensures
        ({
            let up = press(ed, "\x1b[A"@);
            let down = press(ed, "\x1b[B"@);
            let n = ed.history.len();
            &&& up.history == ed.history && down.history == ed.history
            &&& quiet(outcome(ed, "\x1b[A"@)) && quiet(outcome(ed, "\x1b[B"@))
            &&& n == 0 ==> up == ed
            &&& ed.hist_idx is None ==> down == ed
            &&& ed.hist_idx is None && n > 0 ==> {
                &&& stands(up, ed.history[n - 1], Seq::empty())
                &&& up.hist_idx == Some(n - 1)
                &&& up.stashed == ed.buffer
                &&& outcome(ed, "\x1b[A"@).echo == drawn(ed, ed.history[n - 1], Seq::empty())
            }
            &&& ed.hist_idx matches Some(i) ==> {
                let older = if i == 0 {
                    0
                } else {
                    i - 1
                };
                &&& stands(up, ed.history[older], Seq::empty())
                &&& up.hist_idx == Some(older)
                &&& up.stashed == ed.stashed
                &&& outcome(ed, "\x1b[A"@).echo == drawn(ed, ed.history[older], Seq::empty())
                &&& i + 1 < n ==> {
                    &&& stands(down, ed.history[i + 1], Seq::empty())
                    &&& down.hist_idx == Some(i + 1)
                    &&& down.stashed == ed.stashed
                    &&& outcome(ed, "\x1b[B"@).echo == drawn(ed, ed.history[i + 1], Seq::empty())
                }
                &&& i + 1 == n ==> {
                    &&& stands(down, ed.stashed, Seq::empty())
                    &&& down.hist_idx is None
                    &&& outcome(ed, "\x1b[B"@).echo == drawn(ed, ed.stashed, Seq::empty())
                }
            }
        }),
{
    sequences();
    one_escape(ed, "\x1b[A"@);
    one_escape(ed, "\x1b[B"@);
    assert("\x1b[B"@[2] != "\x1b[A"@[2]);
    let up = press(ed, "\x1b[A"@);
    let down = press(ed, "\x1b[B"@);
    assert(up.buffer + Seq::<char>::empty() =~= up.buffer);
    assert(down.buffer + Seq::<char>::empty() =~= down.buffer);
    if ed.history.len() > 0 {
        drawing(up, up.buffer, Seq::empty());
        assert(outcome(ed, "\x1b[A"@).echo =~= drawn(ed, up.buffer, Seq::empty()));
    }
    if ed.hist_idx is Some {
        drawing(down, down.buffer, Seq::empty());
        assert(outcome(ed, "\x1b[B"@).echo =~= drawn(ed, down.buffer, Seq::empty()));
    }
}

/// What was just submitted is what the up arrow shows.
pub proof fn submitted_lines_come_back(ed: EditorView)
    requires
        ready(ed),
        says_something(ed.buffer),
    ensures
        ({
            let later = press(press(ed, seq!['\r']), "\x1b[A"@);
            later.buffer == ed.buffer && later.cursor == ed.buffer.len()
        }),
{
    enter_submits_the_line(ed, seq!['\r']);
    let next = press(ed, seq!['\r']);
    let known = ed.history;
    if known.len() == 200 && known.last() != ed.buffer {
        let both = seq![known[0]] + next.history;
        assert(both == known + seq![ed.buffer]);
        assert(both.last() == ed.buffer);
        assert(next.history.len() > 0);
        assert(next.history.last() == both.last());
    } else if known.len() < 200 && (known.len() == 0 || known.last() != ed.buffer) {
        assert(next.history.last() == ed.buffer);
    }
    arrows_walk_the_history(next);
    let later = press(next, "\x1b[A"@);
    assert(later.buffer =~= ed.buffer);
}

/// Sequences that mean nothing here leave the editor as it was.
pub proof fn other_sequences_do_nothing(ed: EditorView, c: char)
    requires
        ready(ed),
        '\x40' <= c <= '\x7e',
        c != 'A' && c != 'B' && c != 'C' && c != 'D' && c != 'H' && c != 'F',
    ensures
        editor::fed(ed, seq!['\x1b', '[', c]) == (ed, editor::no_effects()),
{
    sequences();
    let key = seq!['\x1b', '[', c];
    one_escape(ed, key);
    assert(key[2] == c);
    assert(editor::csi_meaning(key) == Escape::Ignored);
}

/// The columns of a text are those of its characters, and a control character
/// takes up none.
pub proof fn columns_add_up(s: Seq<char>, c: char)
    ensures
        editor::columns(Seq::empty()) == 0,
        editor::columns(s.push(c)) == (match width::char_columns(c) {
            Some(w) => if editor::columns(s) + w <= usize::MAX {
                editor::columns(s) + w
            } else {
                usize::MAX as int
            },
            None => editor::columns(s) as int,
        }),
{
    assert(s.push(c).drop_last() =~= s);
}

/// A paste keeps printable text as it is; a line break becomes one space, also
/// where it is written as a pair, and other control characters go.
pub proof fn pastes_are_flattened(c: char, rest: Seq<char>)
    ensures
        editor::flattened(Seq::empty(), 0) == Seq::<char>::empty(),
        !text::control(c) ==> editor::flattened(seq![c] + rest, 0) == seq![c] + editor::flattened(
            rest,
            0,
        ),
        editor::flattened(seq!['\n'] + rest, 0) == seq![' '] + editor::flattened(rest, 0),
        editor::flattened(seq!['\r', '\n'] + rest, 0) == seq![' '] + editor::flattened(rest, 0),
        (rest.len() == 0 || rest[0] != '\n') ==> editor::flattened(seq!['\r'] + rest, 0) == seq![
            ' ',
        ] + editor::flattened(rest, 0),
        text::control(c) && c != '\r' && c != '\n' ==> editor::flattened(seq![c] + rest, 0)
            == editor::flattened(rest, 0),
{
    flattened_on(seq![c], rest, 0);
    flattened_on(seq!['\n'], rest, 0);
    flattened_on(seq!['\r'], rest, 0);
    flattened_on(seq!['\r', '\n'], rest, 0);
    assert((seq![c] + rest)[0] == c);
    assert((seq!['\r'] + rest)[0] == '\r');
    assert((seq!['\n'] + rest)[0] == '\n');
    assert((seq!['\r', '\n'] + rest)[0] == '\r');
    assert((seq!['\r', '\n'] + rest)[1] == '\n');
    if rest.len() > 0 {
        assert((seq!['\r'] + rest)[1] == rest[0]);
    }
}

proof fn flattened_on(front: Seq<char>, rest: Seq<char>, i: int)
    requires
        0 <= i <= rest.len(),
    ensures
        editor::flattened(front + rest, front.len() + i) == editor::flattened(rest, i),
    decreases rest.len() - i,
{
    let all = front + rest;
    if i < rest.len() {
        assert(all[front.len() + i] == rest[i]);
        if i + 1 < rest.len() {
            assert(all[front.len() + i + 1] == rest[i + 1]);
            flattened_on(front, rest, i + 2);
        }
        flattened_on(front, rest, i + 1);
    }
}

} // verus!
