//! What shows of a text on the terminal, and what is taken out of it.

use crate::render;
use crate::text;
use vstd::prelude::*;

verus! {

proof fn string_end_shift(x: Seq<char>, y: Seq<char>, j: int)
    requires
        0 <= j,
    ensures
        render::string_end(x + y, x.len() + j) == x.len() + render::string_end(y, j),
    decreases y.len() - j,
{
    if j < y.len() {
        assert((x + y)[x.len() + j] == y[j]);
        string_end_shift(x, y, j + 1);
    }
}

proof fn stripping_shift(x: Seq<char>, y: Seq<char>, i: int, keep_lines: bool)
    requires
        0 <= i,
    ensures
        render::stripped_from(x + y, x.len() + i, keep_lines) == render::stripped_from(
            y,
            i,
            keep_lines,
        ),
    decreases y.len() - i,
{
    let t = x + y;
    if i < y.len() {
        assert(t[x.len() + i] == y[i]);
        if y[i] == '\x1b' {
            render::escape_end_bounds(y, i);
            render::escape_end_bounds(t, x.len() + i);
            if i + 1 < y.len() {
                assert(t[x.len() + i + 1] == y[i + 1]);
                render::csi_final_at_shift(x, y, i + 2);
                string_end_shift(x, y, i + 2);
            }
            assert(render::escape_end(t, x.len() + i) == x.len() + render::escape_end(y, i));
            stripping_shift(x, y, render::escape_end(y, i), keep_lines);
        } else {
            stripping_shift(x, y, i + 1, keep_lines);
        }
    }
}

/// A text without control characters shows as it is, whatever follows it.
pub proof fn plain_text_shows(p: Seq<char>, rest: Seq<char>, keep_lines: bool)
    requires
        forall|k: int| 0 <= k < p.len() ==> !text::control(#[trigger] p[k]),
    ensures
        render::stripped(p + rest, keep_lines) == p + render::stripped(rest, keep_lines),
{
    plain_from(p, rest, 0, keep_lines);
    assert(p.skip(0) =~= p);
}

proof fn plain_from(p: Seq<char>, rest: Seq<char>, i: int, keep_lines: bool)
    requires
        0 <= i <= p.len(),
        forall|k: int| 0 <= k < p.len() ==> !text::control(#[trigger] p[k]),
    ensures
        render::stripped_from(p + rest, i, keep_lines) == p.skip(i) + render::stripped(
            rest,
            keep_lines,
        ),
    decreases p.len() - i,
{
    if i < p.len() {
        assert((p + rest)[i] == p[i]);
        assert(!text::control(p[i]));
        plain_from(p, rest, i + 1, keep_lines);
        assert(seq![p[i]] + (p.skip(i + 1) + render::stripped(rest, keep_lines)) =~= p.skip(i)
            + render::stripped(rest, keep_lines));
    } else {
        stripping_shift(p, rest, 0, keep_lines);
        assert(p.skip(i) + render::stripped(rest, keep_lines) =~= render::stripped(
            rest,
            keep_lines,
        ));
    }
}

/// A control sequence, from the escape to its final character, does not show.
pub proof fn control_sequences_do_not_show(
    params: Seq<char>,
    last: char,
    rest: Seq<char>,
    keep_lines: bool,
)
    requires
        forall|k: int| 0 <= k < params.len() ==> !('\x40' <= #[trigger] params[k] <= '\x7e'),
        '\x40' <= last <= '\x7e',
    ensures
        render::stripped(seq!['\x1b', '['] + params + seq![last] + rest, keep_lines)
            == render::stripped(rest, keep_lines),
{
    let e = seq!['\x1b', '['] + params + seq![last];
    let t = e + rest;
    let f = params.len() + 2;
    assert(t[0] == '\x1b');
    assert(t[1] == '[');
    assert forall|k: int| 2 <= k < f implies !render::csi_final(#[trigger] t[k]) by {
        assert(t[k] == params[k - 2]);
    }
    assert(t[f as int] == last);
    render::csi_final_is(t, 2, f as int);
    assert(render::escape_end(t, 0) == f + 1);
    assert(e.len() == f + 1);
    stripping_shift(e, rest, 0, keep_lines);
}

/// Line breaks and tabs stay where lines are kept, and become spaces where
/// everything goes on one line; other control characters go.
pub proof fn single_controls_go(c: char, rest: Seq<char>)
    ensures
        render::stripped(seq!['\n'] + rest, true) == seq!['\n'] + render::stripped(rest, true),
        render::stripped(seq!['\t'] + rest, true) == seq!['\t'] + render::stripped(rest, true),
        render::stripped(seq!['\r'] + rest, true) == render::stripped(rest, true),
        render::stripped(seq!['\n'] + rest, false) == seq![' '] + render::stripped(rest, false),
        render::stripped(seq!['\t'] + rest, false) == seq![' '] + render::stripped(rest, false),
        render::stripped(seq!['\r'] + rest, false) == seq![' '] + render::stripped(rest, false),
        text::control(c) && c != '\n' && c != '\t' && c != '\r' && c != '\x1b' ==> {
            &&& render::stripped(seq![c] + rest, true) == render::stripped(rest, true)
            &&& render::stripped(seq![c] + rest, false) == render::stripped(rest, false)
        },
{
    one_first('\n', rest, true);
    one_first('\t', rest, true);
    one_first('\r', rest, true);
    one_first('\n', rest, false);
    one_first('\t', rest, false);
    one_first('\r', rest, false);
    if c != '\x1b' {
        one_first(c, rest, true);
        one_first(c, rest, false);
    }
    assert(Seq::<char>::empty() + render::stripped(rest, true) =~= render::stripped(rest, true));
    assert(Seq::<char>::empty() + render::stripped(rest, false) =~= render::stripped(rest, false));
}

proof fn one_first(c: char, rest: Seq<char>, keep_lines: bool)
    requires
        c != '\x1b',
    ensures
        render::stripped(seq![c] + rest, keep_lines) == render::shown_char(c, keep_lines)
            + render::stripped(rest, keep_lines),
{
    assert((seq![c] + rest)[0] == c);
    stripping_shift(seq![c], rest, 0, keep_lines);
}

/// Title, clipboard and other string sequences go whole, up to the bell that ends
/// them; so does what was never ended.
pub proof fn string_sequences_do_not_show(
    intro: char,
    body: Seq<char>,
    rest: Seq<char>,
    keep_lines: bool,
)
    requires
        intro == ']' || intro == 'P' || intro == '_' || intro == '^' || intro == 'X',
        forall|k: int| 0 <= k < body.len() ==> #[trigger] body[k] != '\x07' && body[k] != '\x1b',
    ensures
        render::stripped(seq!['\x1b', intro] + body + seq!['\x07'] + rest, keep_lines)
            == render::stripped(rest, keep_lines),
        render::stripped(seq!['\x1b', intro] + body + seq!['\x1b', '\\'] + rest, keep_lines)
            == render::stripped(rest, keep_lines),
        render::stripped(seq!['\x1b', intro] + body, keep_lines) == Seq::<char>::empty(),
{
    let e = seq!['\x1b', intro] + body + seq!['\x07'];
    let t = e + rest;
    assert(t[0] == '\x1b' && t[1] == intro);
    body_ends(t, body, 2);
    assert(t[2 + body.len() as int] == '\x07');
    stripping_shift(e, rest, 0, keep_lines);
    let g = seq!['\x1b', intro] + body + seq!['\x1b', '\\'];
    let u = g + rest;
    assert(u[0] == '\x1b' && u[1] == intro);
    body_ends(u, body, 2);
    assert(u[2 + body.len() as int] == '\x1b');
    stripping_shift(g, rest, 0, keep_lines);
    let v = seq!['\x1b', intro] + body;
    assert(v[0] == '\x1b' && v[1] == intro);
    body_ends(v, body, 2);
    assert(render::escape_end(v, 0) == v.len());
    assert(render::stripped_from(v, v.len() as int, keep_lines) =~= Seq::<char>::empty());
}

proof fn body_ends(t: Seq<char>, body: Seq<char>, i: int)
    requires
        2 <= i <= 2 + body.len() <= t.len(),
        forall|k: int| 0 <= k < body.len() ==> t[k + 2] == #[trigger] body[k],
        forall|k: int| 0 <= k < body.len() ==> #[trigger] body[k] != '\x07' && body[k] != '\x1b',
    ensures
        render::string_end(t, i) == render::string_end(t, 2 + body.len() as int),
    decreases 2 + body.len() - i,
{
    if i < 2 + body.len() {
        assert(t[i] == body[i - 2]);
        body_ends(t, body, i + 1);
    }
}

proof fn writing_shift(x: Seq<char>, y: Seq<char>, i: int)
    requires
        0 <= i,
    ensures
        render::writable_from(x + y, x.len() + i) == render::writable_from(y, i),
    decreases y.len() - i,
{
    let t = x + y;
    if i < y.len() {
        assert(t[x.len() + i] == y[i]);
        if y[i] == '\x1b' {
            render::escape_end_bounds(y, i);
            render::escape_end_bounds(t, x.len() + i);
            let end = render::escape_end(y, i);
            if i + 1 < y.len() {
                assert(t[x.len() + i + 1] == y[i + 1]);
                render::csi_final_at_shift(x, y, i + 2);
                string_end_shift(x, y, i + 2);
                render::csi_final_at_bounds(y, i + 2);
                let f = render::csi_final_at(y, i + 2);
                if f < y.len() {
                    assert(t[x.len() + f] == y[f]);
                }
                assert(render::params_only(t, x.len() + i + 2, x.len() + f)
                    == render::params_only(y, i + 2, f)) by {
                    if render::params_only(t, x.len() + i + 2, x.len() + f) {
                        assert forall|k: int| i + 2 <= k < f implies text::digit(#[trigger] y[k])
                            || y[k] == ';' by {
                            assert(t[x.len() + k] == y[k]);
                        }
                    }
                    if render::params_only(y, i + 2, f) {
                        assert forall|k: int|
                            x.len() + i + 2 <= k < x.len() + f implies text::digit(#[trigger] t[k])
                            || t[k] == ';' by {
                            assert(t[k] == y[k - x.len()]);
                        }
                    }
                }
            }
            assert(render::escape_end(t, x.len() + i) == x.len() + end);
            assert(t.subrange(x.len() + i, x.len() + end) =~= y.subrange(i, end));
            writing_shift(x, y, end);
        } else {
            writing_shift(x, y, i + 1);
        }
    }
}

/// A raw write goes out as it is where it holds plain text, line breaks, tabs, returns
/// and backspaces; other control characters go.
pub proof fn plain_writes_go_out(c: char, rest: Seq<char>)
    requires
        c != '\x1b',
    ensures
        render::writable(Seq::empty()) == Seq::<char>::empty(),
        !text::control(c) || c == '\n' || c == '\r' || c == '\t' || c == '\x08'
            ==> render::writable(seq![c] + rest) == seq![c] + render::writable(rest),
        text::control(c) && c != '\n' && c != '\r' && c != '\t' && c != '\x08'
            ==> render::writable(seq![c] + rest) == render::writable(rest),
{
    assert((seq![c] + rest)[0] == c);
    writing_shift(seq![c], rest, 0);
}

/// In a raw write the sequences that color, erase within the line or move along it
/// stay; every other control sequence goes.
pub proof fn harmless_sequences_stay(params: Seq<char>, last: char, rest: Seq<char>)
    requires
        forall|k: int| 0 <= k < params.len() ==> '0' <= #[trigger] params[k] <= '9' || params[k]
            == ';',
        '\x40' <= last <= '\x7e',
    ensures
        ({
            let e = seq!['\x1b', '['] + params + seq![last];
            render::writable(e + rest) == if last == 'm' || last == 'K' || last == 'C' || last
                == 'D' {
                e + render::writable(rest)
            } else {
                render::writable(rest)
            }
        }),
{
    let e = seq!['\x1b', '['] + params + seq![last];
    let t = e + rest;
    let f = params.len() + 2;
    assert(t[0] == '\x1b');
    assert(t[1] == '[');
    assert forall|k: int| 2 <= k < f implies !render::csi_final(#[trigger] t[k]) && (text::digit(
        t[k],
    ) || t[k] == ';') by {
        assert(t[k] == params[k - 2]);
    }
    assert(t[f as int] == last);
    render::csi_final_is(t, 2, f as int);
    assert(render::params_only(t, 2, f as int));
    assert(render::escape_end(t, 0) == f + 1);
    assert(e.len() == f + 1);
    assert(t.subrange(0, f as int + 1) =~= e);
    writing_shift(e, rest, 0);
}

} // verus!
