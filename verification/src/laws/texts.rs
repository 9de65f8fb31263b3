//! What the operations on texts and the equality of values come to.

use crate::matcher;
use crate::text;
use crate::value;
use crate::value::ValueView;
use vstd::prelude::*;

verus! {

/// A text without white space round it.
pub open spec fn trim(s: Seq<char>) -> bool {
    s.len() > 0 ==> !text::whitespace(s[0]) && !text::whitespace(s.last())
}

pub open spec fn blank(s: Seq<char>) -> bool {
    forall|k: int| 0 <= k < s.len() ==> text::whitespace(#[trigger] s[k])
}

/// Trimming takes off the white space at both ends and nothing else.
pub proof fn trimming_takes_off_the_ends(before: Seq<char>, s: Seq<char>, after: Seq<char>)
    requires
        blank(before),
        blank(after),
        trim(s),
    ensures
        text::trimmed(before + s + after) == s,
{
    if s.len() == 0 {
        let all = before + s + after;
        assert(blank(all)) by {
            assert forall|k: int| 0 <= k < all.len() implies text::whitespace(
                #[trigger] all[k],
            ) by {
                if k < before.len() {
                    assert(all[k] == before[k]);
                } else {
                    assert(all[k] == after[k - before.len()]);
                }
            }
        }
        all_goes(all);
        assert(s =~= Seq::empty());
    } else {
        start_goes(before, s + after);
        assert(before + s + after =~= before + (s + after));
        end_goes(s, after);
    }
}

proof fn all_goes(s: Seq<char>)
    requires
        blank(s),
    ensures
        text::trimmed(s) == Seq::<char>::empty(),
    decreases s.len(),
{
    if s.len() > 0 {
        assert(text::whitespace(s[0]));
        let rest = s.drop_first();
        assert forall|k: int| 0 <= k < rest.len() implies text::whitespace(#[trigger] rest[k]) by {
            assert(s[k + 1] == rest[k]);
        }
        all_goes(rest);
    } else {
        assert(text::trimmed(s) =~= Seq::empty());
    }
}

proof fn start_goes(before: Seq<char>, s: Seq<char>)
    requires
        blank(before),
        s.len() > 0,
        !text::whitespace(s[0]),
    ensures
        text::trimmed_start(before + s) == s,
    decreases before.len(),
{
    let all = before + s;
    if before.len() > 0 {
        assert(text::whitespace(before[0]));
        let rest = before.drop_first();
        assert forall|k: int| 0 <= k < rest.len() implies text::whitespace(#[trigger] rest[k]) by {
            assert(before[k + 1] == rest[k]);
        }
        assert(all.drop_first() =~= rest + s);
        start_goes(rest, s);
    } else {
        assert(all =~= s);
    }
}

proof fn end_goes(s: Seq<char>, after: Seq<char>)
    requires
        blank(after),
        s.len() > 0,
        !text::whitespace(s.last()),
    ensures
        text::trimmed_end(s + after) == s,
    decreases after.len(),
{
    let all = s + after;
    if after.len() > 0 {
        assert(text::whitespace(after[after.len() - 1]));
        let rest = after.drop_last();
        assert forall|k: int| 0 <= k < rest.len() implies text::whitespace(#[trigger] rest[k]) by {
            assert(after[k] == rest[k]);
        }
        assert(all.drop_last() =~= s + rest);
        end_goes(s, rest);
    } else {
        assert(all =~= s);
    }
}

/// Splitting a text at a character and joining the pieces with it gives the text
/// back, and no piece holds the character.
pub proof fn splitting_and_joining_undo_each_other(s: Seq<char>, c: char)
    ensures
        glued(text::pieces(s, c, 0), c, 0) == s,
        text::pieces(s, c, 0).len() > 0,
        forall|k: int, m: int|
            0 <= k < text::pieces(s, c, 0).len() && 0 <= m < text::pieces(s, c, 0)[k].len()
                ==> #[trigger] text::pieces(s, c, 0)[k][m] != c,
{
    pieces_from(s, c, 0);
    assert(s.skip(0) =~= s);
}

/// Pieces one behind the other, with a character between them.
pub open spec fn glued(parts: Seq<Seq<char>>, c: char, i: int) -> Seq<char>
    decreases parts.len() - i,
{
    if !(0 <= i < parts.len()) {
        Seq::empty()
    } else if i + 1 == parts.len() {
        parts[i]
    } else {
        parts[i] + seq![c] + glued(parts, c, i + 1)
    }
}

proof fn glued_later(a: Seq<char>, parts: Seq<Seq<char>>, c: char, i: int)
    requires
        0 <= i <= parts.len(),
    ensures
        glued(seq![a] + parts, c, i + 1) == glued(parts, c, i),
    decreases parts.len() - i,
{
    let all = seq![a] + parts;
    if i < parts.len() {
        assert(all[i + 1] == parts[i]);
        glued_later(a, parts, c, i + 1);
    }
}

proof fn pieces_from(s: Seq<char>, c: char, i: int)
    requires
        0 <= i <= s.len(),
    ensures
        glued(text::pieces(s, c, i), c, 0) == s.skip(i),
        text::pieces(s, c, i).len() > 0,
        forall|k: int, m: int|
            0 <= k < text::pieces(s, c, i).len() && 0 <= m < text::pieces(s, c, i)[k].len()
                ==> #[trigger] text::pieces(s, c, i)[k][m] != c,
    decreases s.len() - i,
{
    let e = text::run_without(s, c, i);
    text::run_without_is(s, c, i);
    let parts = text::pieces(s, c, i);
    if e < s.len() {
        pieces_from(s, c, e + 1);
        let rest = text::pieces(s, c, e + 1);
        let first = s.subrange(i, e);
        glued_later(first, rest, c, 0);
        assert(parts == seq![first] + rest);
        assert(parts[0] == first);
        assert(s.skip(i) =~= first + seq![c] + s.skip(e + 1));
        assert forall|k: int, m: int|
            0 <= k < parts.len() && 0 <= m < parts[k].len() implies #[trigger] parts[k][m] != c by {
            if k == 0 {
                assert(parts[0][m] == s[i + m]);
            } else {
                assert(parts[k] == rest[k - 1]);
                assert(rest[k - 1][m] != c);
            }
        }
    } else {
        assert(parts =~= seq![s.subrange(i, s.len() as int)]);
        assert(s.subrange(i, s.len() as int) =~= s.skip(i));
        assert forall|k: int, m: int|
            0 <= k < parts.len() && 0 <= m < parts[k].len() implies #[trigger] parts[k][m] != c by {
            assert(parts[0][m] == s[i + m]);
        }
    }
}

/// Joined texts hold each of them in its order, with the separator between two.
pub proof fn joining_puts_texts_in_order(parts: Seq<Seq<char>>, last: Seq<char>, sep: Seq<char>)
    ensures
        text::joined(Seq::empty(), sep) == Seq::<char>::empty(),
        text::joined(seq![last], sep) == last,
        parts.len() > 0 ==> text::joined(parts.push(last), sep) == text::joined(parts, sep) + sep
            + last,
{
    assert(parts.push(last).drop_last() =~= parts);
}

/// A pattern without regard to anything matches where the text holds it: somewhere
/// between a front and a rest.
pub proof fn patterns_match_inside(pattern: Seq<char>, s: Seq<char>)
    ensures
        matcher::substring_matches(pattern, false, s) <==> exists|a: Seq<char>, b: Seq<char>|
            s == #[trigger] ((a + pattern) + b),
        matcher::substring_matches(pattern, true, s) <==> matcher::substring_matches(
            text::lowercased(pattern),
            false,
            text::lowercased(s),
        ),
{
    if matcher::substring_matches(pattern, false, s) {
        let j = choose|j: int| #[trigger] text::matches_at(s, j, pattern);
        let a = s.take(j);
        let b = s.skip(j + pattern.len());
        assert(s =~= (a + pattern) + b);
    }
    if exists|a: Seq<char>, b: Seq<char>| s == #[trigger] ((a + pattern) + b) {
        let (a, b) = choose|a: Seq<char>, b: Seq<char>| s == #[trigger] ((a + pattern) + b);
        assert(s.subrange(a.len() as int, a.len() as int + pattern.len()) =~= pattern);
        assert(text::matches_at(s, a.len() as int, pattern));
    }
}

/// Scalars are equal where they are of one type and say the same; lists where their
/// items are, one by one; and what is of another type is never equal, but for an
/// integer and the float of the same value.
pub proof fn equality_is_by_content(a: ValueView, b: ValueView)
    ensures
        (a is Null || a is Bool || a is Int || a is Str || a is Bytes) && !(b is Float) ==> (
        value::loosely_equal(a, b) <==> a == b),
        a is List && b is List ==> {
            let x = a->List_0;
            let y = b->List_0;
            value::loosely_equal(a, b) <==> x.len() == y.len() && forall|i: int|
                0 <= i < x.len() ==> value::same_value(#[trigger] x[i], y[i])
        },
        (a is List) != (b is List) ==> !value::loosely_equal(a, b),
        (a is Record) != (b is Record) ==> !value::loosely_equal(a, b),
{
}

/// Of the ASCII characters, white space is the space, the tab and the line ends; a
/// character is no two of a letter, a digit, white space that is not a control
/// character, and a control character; and the only other ones are the punctuation
/// marks.
pub proof fn characters_have_one_class(c: char)
    requires
        c <= '\x7f',
    ensures
        text::whitespace(c) <==> c == ' ' || c == '\t' || c == '\n' || c == '\r' || c == '\x0b' || c
            == '\x0c',
        text::digit(c) <==> "0123456789"@.contains(c),
        text::control(c) <==> c < ' ' || c == '\x7f',
        text::alphanumeric(c) <==> text::ascii_letter(c) || text::digit(c),
        !(text::ascii_letter(c) && text::digit(c)),
        text::alphanumeric(c) ==> !text::whitespace(c) && !text::control(c),
        text::alphanumeric(c) || text::control(c) || c == ' ' || "!\"#$%&'()*+,-./:;<=>?@[\\]^_`{|}~"@.contains(c),
{
    reveal_strlit("0123456789");
    reveal_strlit("!\"#$%&'()*+,-./:;<=>?@[\\]^_`{|}~");
    let digits = "0123456789"@;
    let marks = "!\"#$%&'()*+,-./:;<=>?@[\\]^_`{|}~"@;
    if text::digit(c) {
        assert(digits[c as int - '0' as int] == c);
    } else {
        assert forall|k: int| 0 <= k < digits.len() implies digits[k] != c by {
            assert(text::digit(digits[k]));
        }
    }
    if !text::alphanumeric(c) && !text::control(c) && c != ' ' {
        let v = c as int;
        let at = if v < 0x30 {
            v - 0x21
        } else if v < 0x41 {
            v - 0x3a + 15
        } else if v < 0x61 {
            v - 0x5b + 22
        } else {
            v - 0x7b + 28
        };
        assert(marks[at] == c);
    }
}

} // verus!
