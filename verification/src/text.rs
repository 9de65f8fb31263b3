//! Text as a sequence of characters: conversions between `str`, `String` and
//! `Vec<char>`, lengths in UTF-8 bytes, character classes, and decimal
//! numerals.

use std::cmp::Ordering;
use vstd::prelude::*;

verus! {

/// `String::push`: appends one character to the end of the string.
pub assume_specification[ String::push ](s: &mut String, c: char)
    ensures
        final(s)@ == old(s)@.push(c),
;

/// `str`'s `==`: two string slices are equal when they hold the same
/// characters.
#[verifier::external_body]
pub(crate) fn same_text(a: &str, b: &str) -> (r: bool)
    ensures
        r == (a@ == b@),
{
    a == b
}

/// How many bytes UTF-8 spends on one character.
pub open spec fn utf8_len(c: char) -> nat {
    if (c as u32) < 0x80 {
        1
    } else if (c as u32) < 0x800 {
        2
    } else if (c as u32) < 0x10000 {
        3
    } else {
        4
    }
}

/// Length of a text in UTF-8 bytes.
pub open spec fn byte_len(s: Seq<char>) -> nat
    decreases s.len(),
{
    if s.len() == 0 {
        0
    } else {
        byte_len(s.drop_last()) + utf8_len(s.last())
    }
}

/// Byte offset of the character at index `i`.
pub open spec fn byte_offset(s: Seq<char>, i: int) -> nat {
    byte_len(s.take(i))
}

/// Byte length distributes over concatenation.
pub proof fn byte_len_concat(a: Seq<char>, b: Seq<char>)
    ensures
        byte_len(a + b) == byte_len(a) + byte_len(b),
    decreases b.len(),
{
    if b.len() == 0 {
        assert(a + b == a);
    } else {
        byte_len_concat(a, b.drop_last());
        assert((a + b).drop_last() == a + b.drop_last());
        assert((a + b).last() == b.last());
    }
}

proof fn char_encoding_len(c: char)
    ensures
        vstd::utf8::encode_scalar(c as u32).len() == utf8_len(c),
{
    vstd::utf8::char_is_scalar(c);
}

/// `byte_len` is the length of the UTF-8 encoding.
pub proof fn byte_len_is_encoded_len(s: Seq<char>)
    ensures
        vstd::utf8::encode_utf8(s).len() == byte_len(s),
    decreases s.len(),
{
    if s.len() > 0 {
        let first = seq![s[0]];
        byte_len_is_encoded_len(s.drop_first());
        assert(s == first + s.drop_first());
        byte_len_concat(first, s.drop_first());
        assert(first.drop_last() == Seq::<char>::empty());
        assert(byte_len(first) == utf8_len(s[0])) by {
            assert(first.last() == s[0]);
            assert(byte_len(first.drop_last()) == 0);
        }
        char_encoding_len(s[0]);
    }
}

/// One step of a byte offset.
pub proof fn byte_offset_step(s: Seq<char>, i: int)
    requires
        0 <= i < s.len(),
    ensures
        byte_offset(s, i + 1) == byte_offset(s, i) + utf8_len(s[i]),
{
    assert(s.take(i + 1).drop_last() == s.take(i));
    assert(s.take(i + 1).last() == s[i]);
}

/// Byte offsets grow strictly with the character index.
pub proof fn byte_offset_monotone(s: Seq<char>, i: int, j: int)
    requires
        0 <= i <= j <= s.len(),
    ensures
        byte_offset(s, i) + (j - i) <= byte_offset(s, j),
    decreases j - i,
{
    if i < j {
        byte_offset_monotone(s, i, j - 1);
        byte_offset_step(s, j - 1);
    }
}

/// The last byte offset is the byte length.
pub proof fn byte_offset_end(s: Seq<char>)
    ensures
        byte_offset(s, s.len() as int) == byte_len(s),
        byte_offset(s, 0) == 0,
{
    assert(s.take(s.len() as int) == s);
    assert(s.take(0) == Seq::<char>::empty());
}

/// The largest character index whose byte offset is at most `b`.
pub open spec fn floor_index(s: Seq<char>, b: int) -> int
    decreases s.len(),
{
    if s.len() == 0 || byte_len(s) <= b {
        s.len() as int
    } else {
        floor_index(s.drop_last(), b)
    }
}

/// What characterises `floor_index`.
pub proof fn floor_index_is(s: Seq<char>, b: int, i: int)
    requires
        0 <= i <= s.len(),
        byte_offset(s, i) <= b,
        i < s.len() ==> byte_offset(s, i + 1) > b,
    ensures
        floor_index(s, b) == i,
    decreases s.len(),
{
    if i == s.len() {
        byte_offset_end(s);
    } else {
        byte_offset_monotone(s, i + 1, s.len() as int);
        byte_offset_end(s);
        assert(s.drop_last().take(i) == s.take(i));
        if i < s.len() - 1 {
            assert(s.drop_last().take(i + 1) == s.take(i + 1));
        }
        floor_index_is(s.drop_last(), b, i);
    }
}

/// The character index that starts at byte `b`, rounded down.
pub fn index_of_byte(chars: &Vec<char>, b: usize) -> (i: usize)
    ensures
        i == floor_index(chars@, b as int),
        i <= chars@.len(),
{
    let mut i: usize = 0;
    let mut left: usize = b;
    proof {
        byte_offset_end(chars@);
    }
    while i < chars.len()
        invariant
            i <= chars@.len(),
            byte_offset(chars@, i as int) + left == b,
        ensures
            i <= chars@.len(),
            byte_offset(chars@, i as int) <= b,
            i < chars@.len() ==> byte_offset(chars@, i + 1) > b,
        decreases chars@.len() - i,
    {
        let w: usize = utf8_width(chars[i]);
        proof {
            byte_offset_step(chars@, i as int);
        }
        if w > left {
            break;
        }
        left = left - w;
        i = i + 1;
    }
    proof {
        floor_index_is(chars@, b as int, i as int);
    }
    i
}

/// How many bytes UTF-8 spends on `c`.
pub fn utf8_width(c: char) -> (n: usize)
    ensures
        n == utf8_len(c),
{
    let v: u32 = c as u32;
    if v < 0x80 {
        1
    } else if v < 0x800 {
        2
    } else if v < 0x10000 {
        3
    } else {
        4
    }
}

/// The characters of a string slice.
pub fn to_chars(s: &str) -> (r: Vec<char>)
    ensures
        r@ == s@,
        s@.len() <= byte_len(s@) <= usize::MAX,
{
    let n: usize = s.as_bytes().len();
    proof {
        byte_len_is_encoded_len(s@);
        byte_offset_end(s@);
        byte_offset_monotone(s@, 0, s@.len() as int);
    }
    let mut out: Vec<char> = Vec::new();
    for c in it: s.chars()
        invariant
            out@ == s@.take(it.index() as int),
            it.seq() == s@,
    {
        proof {
            assert(s@.take(it.index() as int + 1) == s@.take(it.index() as int).push(c));
        }
        out.push(c);
    }
    proof {
        assert(s@.take(s@.len() as int) == s@);
    }
    out
}

/// The string made of the characters from index `i` up to index `j`.
pub fn slice_text(chars: &Vec<char>, i: usize, j: usize) -> (r: String)
    requires
        i <= j <= chars@.len(),
    ensures
        r@ == chars@.subrange(i as int, j as int),
{
    let mut out = String::new();
    let mut k: usize = i;
    while k < j
        invariant
            i <= k <= j <= chars@.len(),
            out@ == chars@.subrange(i as int, k as int),
        decreases j - k,
    {
        proof {
            assert(chars@.subrange(i as int, k as int + 1) == chars@.subrange(i as int, k as int).push(
                chars@[k as int],
            ));
        }
        out.push(chars[k]);
        k = k + 1;
    }
    out
}

/// The string made of all the characters.
pub fn from_chars(chars: &Vec<char>) -> (r: String)
    ensures
        r@ == chars@,
{
    let r = slice_text(chars, 0, chars.len());
    proof {
        assert(chars@.subrange(0, chars@.len() as int) == chars@);
    }
    r
}

/// A text between two others.
pub fn around(before: &str, t: &str, after: &str) -> (r: String)
    ensures
        r@ == before@ + t@ + after@,
{
    let mut m = before.to_owned();
    m.append(t);
    m.append(after);
    m
}

/// `n` copies of one character.
pub open spec fn repeated(c: char, n: nat) -> Seq<char> {
    Seq::new(n, |i: int| c)
}

/// A string of `n` copies of `c`.
pub fn repeat_char(c: char, n: usize) -> (r: String)
    ensures
        r@ == repeated(c, n as nat),
{
    let mut out = String::new();
    let mut k: usize = 0;
    while k < n
        invariant
            k <= n,
            out@ == repeated(c, k as nat),
        decreases n - k,
    {
        proof {
            assert(repeated(c, (k + 1) as nat) == repeated(c, k as nat).push(c));
        }
        out.push(c);
        k = k + 1;
    }
    out
}

/// Does one character come before another by code point?
pub open spec fn char_before(a: char, b: char) -> bool {
    (a as u32) < (b as u32)
}

pub fn is_char_before(a: char, b: char) -> (r: bool)
    ensures
        r == char_before(a, b),
{
    (a as u32) < (b as u32)
}

/// Lexicographic order of two texts by code point.
pub open spec fn text_order(a: Seq<char>, b: Seq<char>) -> Ordering
    decreases a.len(),
{
    if a.len() == 0 {
        if b.len() == 0 {
            Ordering::Equal
        } else {
            Ordering::Less
        }
    } else if b.len() == 0 {
        Ordering::Greater
    } else if a[0] == b[0] {
        text_order(a.drop_first(), b.drop_first())
    } else if char_before(a[0], b[0]) {
        Ordering::Less
    } else {
        Ordering::Greater
    }
}

proof fn char_before_total(a: char, b: char)
    ensures
        a != b ==> (char_before(a, b) <==> !char_before(b, a)),
        a == b ==> !char_before(a, b),
{
}

/// The order is total: it is antisymmetric and transitive, and only equal
/// texts compare as equal.
pub proof fn text_order_total(a: Seq<char>, b: Seq<char>, c: Seq<char>)
    ensures
        text_order(a, b) == Ordering::Equal <==> a == b,
        text_order(a, b) == Ordering::Less <==> text_order(b, a) == Ordering::Greater,
        text_order(a, b) == Ordering::Less && text_order(b, c) == Ordering::Less ==> text_order(
            a,
            c,
        ) == Ordering::Less,
    decreases a.len() + b.len(),
{
    if a.len() > 0 && b.len() > 0 {
        char_before_total(a[0], b[0]);
        if a[0] == b[0] {
            let rest = if c.len() > 0 {
                c.drop_first()
            } else {
                c
            };
            text_order_total(a.drop_first(), b.drop_first(), rest);
            assert(a =~= seq![a[0]] + a.drop_first());
            assert(b =~= seq![b[0]] + b.drop_first());
        }
    } else if a.len() == 0 && b.len() == 0 {
        assert(a =~= b);
    }
}

/// Compare two texts by code point.
pub fn order_of_texts(a: &str, b: &str) -> (r: Ordering)
    ensures
        r == text_order(a@, b@),
{
    let x = to_chars(a);
    let y = to_chars(b);
    let mut i: usize = 0;
    proof {
        assert(x@.skip(0) =~= x@);
        assert(y@.skip(0) =~= y@);
    }
    while i < x.len() && i < y.len()
        invariant
            x@ == a@,
            y@ == b@,
            i <= x@.len(),
            i <= y@.len(),
            text_order(x@.skip(skipped(i)), y@.skip(skipped(i))) == text_order(a@, b@),
        decreases x@.len() - i,
    {
        proof {
            let k = skipped(i);
            assert(x@.skip(k)[0] == x@[k]);
            assert(y@.skip(k)[0] == y@[k]);
            assert(x@.skip(k).drop_first() =~= x@.skip(k + 1));
            assert(y@.skip(k).drop_first() =~= y@.skip(k + 1));
        }
        if x[i] != y[i] {
            return if is_char_before(x[i], y[i]) {
                Ordering::Less
            } else {
                Ordering::Greater
            };
        }
        i = i + 1;
    }
    if i < y.len() {
        Ordering::Less
    } else if i < x.len() {
        Ordering::Greater
    } else {
        Ordering::Equal
    }
}

/// An index as a position in a sequence.
pub open spec fn skipped(i: usize) -> int {
    i as int
}

/// Whitespace: the characters with Unicode's `White_Space` property.
pub open spec fn whitespace(c: char) -> bool {
    let v = c as u32;
    ||| 0x9 <= v <= 0xd
    ||| v == 0x20
    ||| v == 0x85
    ||| v == 0xa0
    ||| v == 0x1680
    ||| 0x2000 <= v <= 0x200a
    ||| v == 0x2028
    ||| v == 0x2029
    ||| v == 0x202f
    ||| v == 0x205f
    ||| v == 0x3000
}

pub fn is_whitespace(c: char) -> (r: bool)
    ensures
        r == whitespace(c),
{
    let v: u32 = c as u32;
    (0x9 <= v && v <= 0xd) || v == 0x20 || v == 0x85 || v == 0xa0 || v == 0x1680 || (0x2000 <= v
        && v <= 0x200a) || v == 0x2028 || v == 0x2029 || v == 0x202f || v == 0x205f || v == 0x3000
}

/// Control characters: Unicode's general category `Cc`.
pub open spec fn control(c: char) -> bool {
    let v = c as u32;
    v <= 0x1f || 0x7f <= v <= 0x9f
}

pub fn is_control(c: char) -> (r: bool)
    ensures
        r == control(c),
{
    let v: u32 = c as u32;
    v <= 0x1f || (0x7f <= v && v <= 0x9f)
}

pub open spec fn digit(c: char) -> bool {
    '0' <= c <= '9'
}

pub fn is_digit(c: char) -> (r: bool)
    ensures
        r == digit(c),
{
    '0' <= c && c <= '9'
}

pub open spec fn ascii_letter(c: char) -> bool {
    'a' <= c <= 'z' || 'A' <= c <= 'Z'
}

pub fn is_ascii_letter(c: char) -> (r: bool)
    ensures
        r == ascii_letter(c),
{
    ('a' <= c && c <= 'z') || ('A' <= c && c <= 'Z')
}

/// What `char::is_alphabetic` says of a character.
pub uninterp spec fn unicode_alphabetic(c: char) -> bool;

/// What `char::is_alphanumeric` says of a character.
pub uninterp spec fn unicode_alphanumeric(c: char) -> bool;

/// `char::is_alphabetic`: whether the character has Unicode's `Alphabetic`
/// property, a function of the character alone.
#[verifier::external_body]
fn std_is_alphabetic(c: char) -> (r: bool)
    ensures
        r == unicode_alphabetic(c),
{
    c.is_alphabetic()
}

/// `char::is_alphanumeric`: whether the character is alphabetic or numeric by
/// Unicode, a function of the character alone.
#[verifier::external_body]
fn std_is_alphanumeric(c: char) -> (r: bool)
    ensures
        r == unicode_alphanumeric(c),
{
    c.is_alphanumeric()
}

/// Letters: the ASCII ones, and beyond ASCII what Unicode calls alphabetic.
pub open spec fn letter(c: char) -> bool {
    if (c as u32) < 0x80 {
        ascii_letter(c)
    } else {
        unicode_alphabetic(c)
    }
}

pub fn is_letter(c: char) -> (r: bool)
    ensures
        r == letter(c),
{
    if (c as u32) < 0x80 {
        is_ascii_letter(c)
    } else {
        std_is_alphabetic(c)
    }
}

/// Letters and digits: the ASCII ones, and beyond ASCII what Unicode calls
/// alphanumeric.
pub open spec fn alphanumeric(c: char) -> bool {
    if (c as u32) < 0x80 {
        ascii_letter(c) || digit(c)
    } else {
        unicode_alphanumeric(c)
    }
}

pub fn is_alphanumeric(c: char) -> (r: bool)
    ensures
        r == alphanumeric(c),
{
    if (c as u32) < 0x80 {
        is_ascii_letter(c) || is_digit(c)
    } else {
        std_is_alphanumeric(c)
    }
}

/// The value of a decimal digit.
pub open spec fn digit_value(c: char) -> nat {
    (c as u32 - '0' as u32) as nat
}

/// The number that a run of decimal digits denotes.
pub open spec fn decimal_value(s: Seq<char>) -> nat
    decreases s.len(),
{
    if s.len() == 0 {
        0
    } else {
        10 * decimal_value(s.drop_last()) + digit_value(s.last())
    }
}

/// The decimal numeral of a natural number.
pub open spec fn numeral(n: nat) -> Seq<char>
    decreases n,
{
    if n < 10 {
        seq![digit_char(n)]
    } else {
        numeral(n / 10).push(digit_char(n % 10))
    }
}

/// The digit of a value below ten.
pub open spec fn digit_char(n: nat) -> char {
    if n == 0 { '0' }
    else if n == 1 { '1' }
    else if n == 2 { '2' }
    else if n == 3 { '3' }
    else if n == 4 { '4' }
    else if n == 5 { '5' }
    else if n == 6 { '6' }
    else if n == 7 { '7' }
    else if n == 8 { '8' }
    else { '9' }
}

/// The decimal text of an integer.
pub open spec fn decimal_text(n: int) -> Seq<char> {
    if n < 0 {
        seq!['-'] + numeral((-n) as nat)
    } else {
        numeral(n as nat)
    }
}

/// A numeral denotes the number it was made of, and is digits alone.
pub proof fn numeral_denotes(n: nat)
    ensures
        decimal_value(numeral(n)) == n,
        numeral(n).len() > 0,
        forall|i: int| 0 <= i < numeral(n).len() ==> digit(#[trigger] numeral(n)[i]),
    decreases n,
{
    if n >= 10 {
        numeral_denotes(n / 10);
        assert(numeral(n).drop_last() =~= numeral(n / 10));
    } else {
        assert(numeral(n).drop_last() =~= Seq::empty());
        assert(decimal_value(Seq::empty()) == 0);
    }
}

fn push_digit(out: &mut String, d: u64)
    requires
        d < 10,
    ensures
        final(out)@ == old(out)@.push(digit_char(d as nat)),
{
    out.push(
        if d == 0 {
            '0'
        } else if d == 1 {
            '1'
        } else if d == 2 {
            '2'
        } else if d == 3 {
            '3'
        } else if d == 4 {
            '4'
        } else if d == 5 {
            '5'
        } else if d == 6 {
            '6'
        } else if d == 7 {
            '7'
        } else if d == 8 {
            '8'
        } else {
            '9'
        },
    );
}

/// Append the numeral of a number.
pub fn push_number(out: &mut String, n: u64)
    ensures
        final(out)@ == old(out)@ + numeral(n as nat),
    decreases n,
{
    if n >= 10 {
        push_number(out, n / 10);
    }
    push_digit(out, n % 10);
    proof {
        if n >= 10 {
            assert(old(out)@ + numeral(n as nat) =~= (old(out)@ + numeral((n / 10) as nat)).push(
                digit_char((n % 10) as nat),
            ));
        } else {
            assert(old(out)@ + numeral(n as nat) =~= old(out)@.push(digit_char(n as nat)));
        }
    }
}

/// The decimal text of an unsigned number.
pub fn number_text(n: u64) -> (r: String)
    ensures
        r@ == numeral(n as nat),
{
    let mut out = String::new();
    push_number(&mut out, n);
    proof {
        assert(Seq::<char>::empty() + numeral(n as nat) =~= numeral(n as nat));
    }
    out
}

/// The decimal text of an integer.
pub fn int_text(n: i64) -> (r: String)
    ensures
        r@ == decimal_text(n as int),
{
    if n < 0 {
        let mut out = String::new();
        out.push('-');
        push_number(&mut out, (-(n as i128)) as u64);
        proof {
            assert(out@ =~= decimal_text(n as int));
        }
        out
    } else {
        number_text(n as u64)
    }
}

/// Does a text hold another at a place?
pub open spec fn matches_at(s: Seq<char>, j: int, d: Seq<char>) -> bool {
    0 <= j && j + d.len() <= s.len() && s.subrange(j, j + d.len()) == d
}

/// Does a text hold another anywhere?
pub open spec fn contains(s: Seq<char>, d: Seq<char>) -> bool {
    exists|j: int| #[trigger] matches_at(s, j, d)
}

pub fn holds_at(s: &Vec<char>, j: usize, d: &Vec<char>) -> (r: bool)
    requires
        j <= s@.len(),
    ensures
        r == matches_at(s@, j as int, d@),
{
    if d.len() > s.len() - j {
        return false;
    }
    let ghost part = s@.subrange(j as int, j + d@.len());
    let mut k: usize = 0;
    while k < d.len()
        invariant
            k <= d@.len(),
            j + d@.len() <= s@.len() <= usize::MAX,
            part == s@.subrange(j as int, j + d@.len()),
            forall|m: int| 0 <= m < k ==> #[trigger] part[m] == d@[m],
        decreases d@.len() - k,
    {
        proof {
            assert(part[k as int] == s@[j + k]);
        }
        if s[j + k] != d[k] {
            return false;
        }
        k = k + 1;
    }
    proof {
        assert(part =~= d@);
    }
    true
}

/// Is one text part of another?
pub fn has_text(s: &str, d: &str) -> (r: bool)
    ensures
        r == contains(s@, d@),
{
    let chars = to_chars(s);
    let needle = to_chars(d);
    let n: usize = chars.len();
    let mut j: usize = 0;
    while j < n
        invariant
            chars@ == s@,
            needle@ == d@,
            n == chars@.len(),
            j <= n,
            forall|k: int| 0 <= k < j ==> !#[trigger] matches_at(s@, k, d@),
        decreases n - j,
    {
        if holds_at(&chars, j, &needle) {
            return true;
        }
        j = j + 1;
    }
    holds_at(&chars, n, &needle)
}

/// What `str::to_lowercase` makes of a text.
pub uninterp spec fn lowercased(s: Seq<char>) -> Seq<char>;

/// What `str::to_uppercase` makes of a text.
pub uninterp spec fn uppercased(s: Seq<char>) -> Seq<char>;

/// `str::to_lowercase`: the lowercase equivalent of a text by Unicode's rules,
/// a function of the text alone.
#[verifier::external_body]
pub(crate) fn to_lower(s: &str) -> (r: String)
    ensures
        r@ == lowercased(s@),
{
    s.to_lowercase()
}

/// `str::to_uppercase`: the uppercase equivalent of a text by Unicode's rules,
/// a function of the text alone.
#[verifier::external_body]
pub(crate) fn to_upper(s: &str) -> (r: String)
    ensures
        r@ == uppercased(s@),
{
    s.to_uppercase()
}

/// Texts one after the other, with a separator between them.
pub open spec fn joined(parts: Seq<Seq<char>>, sep: Seq<char>) -> Seq<char>
    decreases parts.len(),
{
    if parts.len() == 0 {
        Seq::empty()
    } else if parts.len() == 1 {
        parts[0]
    } else {
        joined(parts.drop_last(), sep) + sep + parts.last()
    }
}

/// The texts of a list of strings.
pub open spec fn texts(v: Seq<String>) -> Seq<Seq<char>> {
    v.map_values(|s: String| s@)
}

/// The first `n` strings, with a separator between them.
pub fn join(parts: &Vec<String>, n: usize, sep: &str) -> (r: String)
    requires
        n <= parts@.len(),
    ensures
        r@ == joined(texts(parts@).take(n as int), sep@),
{
    let ghost all = texts(parts@);
    let mut out = String::new();
    let mut i: usize = 0;
    while i < n
        invariant
            i <= n <= parts@.len(),
            all == texts(parts@),
            out@ == joined(all.take(i as int), sep@),
        decreases n - i,
    {
        proof {
            assert(all.take(i + 1).drop_last() =~= all.take(i as int));
            assert(all.take(i + 1).last() == parts@[i as int]@);
        }
        if i > 0 {
            out.append(sep);
        }
        out.append(parts[i].as_str());
        proof {
            if i == 0 {
                assert(out@ =~= parts@[0]@);
            }
        }
        i = i + 1;
    }
    out
}

/// Does a text start with another?
pub open spec fn starts_with(s: Seq<char>, d: Seq<char>) -> bool {
    matches_at(s, 0, d)
}

pub fn has_prefix(s: &str, d: &str) -> (r: bool)
    ensures
        r == starts_with(s@, d@),
{
    let chars = to_chars(s);
    let needle = to_chars(d);
    holds_at(&chars, 0, &needle)
}

/// Does one text come after another by code point?
pub open spec fn text_after(a: Seq<char>, b: Seq<char>) -> bool {
    text_order(a, b) == Ordering::Greater
}

pub fn is_after(a: &str, b: &str) -> (r: bool)
    ensures
        r == text_after(a@, b@),
{
    match order_of_texts(a, b) {
        Ordering::Greater => true,
        _ => false,
    }
}

/// `text_after` orders texts: no text comes after itself, of two different
/// texts one comes after the other, and what is not after stays so along a
/// chain.
pub proof fn text_after_is_an_order(a: Seq<char>, b: Seq<char>, c: Seq<char>)
    ensures
        !text_after(a, a),
        a != b ==> (text_after(a, b) <==> !text_after(b, a)),
        !text_after(a, b) && !text_after(b, c) ==> !text_after(a, c),
{
    text_order_total(a, a, a);
    text_order_total(a, b, c);
    text_order_total(b, a, c);
    text_order_total(b, c, a);
    text_order_total(a, c, b);
    text_order_total(c, a, b);
    text_order_total(c, b, a);
}

/// Where the run of characters other than `c` that starts at `i` ends.
pub open spec fn run_without(s: Seq<char>, c: char, i: int) -> int
    decreases s.len() - i,
{
    if 0 <= i < s.len() && s[i] != c {
        run_without(s, c, i + 1)
    } else {
        i
    }
}

/// A run stays inside the text, holds no `c`, and ends at the text's end or at
/// a `c`.
pub proof fn run_without_is(s: Seq<char>, c: char, i: int)
    requires
        0 <= i <= s.len(),
    ensures
        i <= run_without(s, c, i) <= s.len(),
        forall|k: int| i <= k < run_without(s, c, i) ==> s[k] != c,
        run_without(s, c, i) < s.len() ==> s[run_without(s, c, i)] == c,
    decreases s.len() - i,
{
    if i < s.len() && s[i] != c {
        run_without_is(s, c, i + 1);
    }
}

/// The end of a run without `c`.
pub fn end_of_run(s: &Vec<char>, c: char, i: usize) -> (r: usize)
    requires
        i <= s@.len(),
    ensures
        r == run_without(s@, c, i as int),
        i <= r <= s@.len(),
{
    let n: usize = s.len();
    let mut k: usize = i;
    while k < n && s[k] != c
        invariant
            i <= k <= n,
            n == s@.len(),
            run_without(s@, c, i as int) == run_without(s@, c, k as int),
        decreases n - k,
    {
        k = k + 1;
    }
    k
}

/// A text without the whitespace at its start.
pub open spec fn trimmed_start(s: Seq<char>) -> Seq<char>
    decreases s.len(),
{
    if s.len() > 0 && whitespace(s[0]) {
        trimmed_start(s.drop_first())
    } else {
        s
    }
}

/// A text without the whitespace at its end.
pub open spec fn trimmed_end(s: Seq<char>) -> Seq<char>
    decreases s.len(),
{
    if s.len() > 0 && whitespace(s.last()) {
        trimmed_end(s.drop_last())
    } else {
        s
    }
}

/// A text without the whitespace around it.
pub open spec fn trimmed(s: Seq<char>) -> Seq<char> {
    trimmed_end(trimmed_start(s))
}

pub fn trim(s: &str) -> (r: String)
    ensures
        r@ == trimmed(s@),
{
    let chars = to_chars(s);
    let mut i: usize = 0;
    let mut j: usize = chars.len();
    proof {
        assert(chars@.skip(0) =~= chars@);
    }
    while i < j && is_whitespace(chars[i])
        invariant
            i <= j == chars@.len(),
            chars@ == s@,
            trimmed_start(s@) == trimmed_start(s@.skip(i as int)),
        decreases j - i,
    {
        proof {
            assert(s@.skip(i as int).drop_first() =~= s@.skip(i + 1));
        }
        i = i + 1;
    }
    let ghost body = s@.skip(i as int);
    proof {
        assert(body.take(body.len() as int) =~= body);
    }
    while i < j && is_whitespace(chars[j - 1])
        invariant
            i <= j <= chars@.len(),
            chars@ == s@,
            body == s@.skip(i as int),
            trimmed_end(body) == trimmed_end(body.take(j - i)),
        decreases j - i,
    {
        proof {
            assert(body.take(j - i).drop_last() =~= body.take(j - i - 1));
        }
        j = j - 1;
    }
    proof {
        assert(s@.subrange(i as int, j as int) =~= body.take(j - i));
    }
    slice_text(&chars, i, j)
}

/// The pieces of a text between the occurrences of a character, from a place
/// on.
pub open spec fn pieces(s: Seq<char>, c: char, i: int) -> Seq<Seq<char>>
    decreases s.len() - i,
{
    let e = run_without(s, c, i);
    if 0 <= i <= e < s.len() {
        seq![s.subrange(i, e)] + pieces(s, c, e + 1)
    } else {
        seq![s.subrange(i, s.len() as int)]
    }
}

pub fn split(s: &str, c: char) -> (r: Vec<String>)
    ensures
        texts(r@) == pieces(s@, c, 0),
{
    let chars = to_chars(s);
    let n: usize = chars.len();
    let mut out: Vec<String> = Vec::new();
    let mut i: usize = 0;
    proof {
        assert(texts(out@) + pieces(s@, c, 0) =~= pieces(s@, c, 0));
    }
    loop
        invariant
            i <= n,
            n == chars@.len(),
            chars@ == s@,
            texts(out@) + pieces(s@, c, i as int) == pieces(s@, c, 0),
        decreases n - i,
    {
        let e: usize = end_of_run(&chars, c, i);
        let ghost before = out@;
        out.push(slice_text(&chars, i, e));
        proof {
            assert(texts(out@) =~= texts(before).push(s@.subrange(i as int, e as int)));
        }
        if e == n {
            proof {
                assert(texts(out@) =~= texts(before) + pieces(s@, c, i as int));
            }
            return out;
        }
        proof {
            assert(texts(out@) + pieces(s@, c, e + 1) =~= texts(before) + pieces(
                s@,
                c,
                i as int,
            ));
        }
        i = e + 1;
    }
}

/// The line of a text that runs from `i` to the line feed, or to the end, at
/// `e`. A carriage return before the line feed belongs to the line ending.
pub open spec fn line_between(s: Seq<char>, i: int, e: int) -> Seq<char> {
    if e < s.len() && i < e && s[e - 1] == '\r' {
        s.subrange(i, e - 1)
    } else {
        s.subrange(i, e)
    }
}

/// The lines of a text from a place on. The last line ending is optional.
pub open spec fn lines_from(s: Seq<char>, i: int) -> Seq<Seq<char>>
    decreases s.len() - i,
{
    let e = run_without(s, '\n', i);
    if 0 <= i <= e < s.len() {
        seq![line_between(s, i, e)] + lines_from(s, e + 1)
    } else if 0 <= i < s.len() {
        seq![line_between(s, i, e)]
    } else {
        Seq::empty()
    }
}

pub fn lines(s: &str) -> (r: Vec<String>)
    ensures
        texts(r@) == lines_from(s@, 0),
{
    let chars = to_chars(s);
    let n: usize = chars.len();
    let mut out: Vec<String> = Vec::new();
    let mut i: usize = 0;
    proof {
        assert(texts(out@) + lines_from(s@, 0) =~= lines_from(s@, 0));
    }
    while i < n
        invariant
            i <= n,
            n == chars@.len(),
            chars@ == s@,
            texts(out@) + lines_from(s@, i as int) == lines_from(s@, 0),
        decreases n - i,
    {
        let e: usize = end_of_run(&chars, '\n', i);
        let ghost before = out@;
        let line = if e < n && i < e && chars[e - 1] == '\r' {
            slice_text(&chars, i, e - 1)
        } else {
            slice_text(&chars, i, e)
        };
        out.push(line);
        proof {
            assert(texts(out@) =~= texts(before).push(line_between(s@, i as int, e as int)));
        }
        if e == n {
            proof {
                assert(texts(out@) =~= texts(before) + lines_from(s@, i as int));
            }
            return out;
        }
        proof {
            assert(texts(out@) + lines_from(s@, e + 1) =~= texts(before) + lines_from(
                s@,
                i as int,
            ));
        }
        i = e + 1;
    }
    proof {
        assert(texts(out@) + lines_from(s@, n as int) =~= texts(out@));
    }
    out
}

pub fn clone_texts(v: &Vec<String>) -> (r: Vec<String>)
    ensures
        texts(r@) == texts(v@),
        r@.len() == v@.len(),
{
    let mut out: Vec<String> = Vec::new();
    let mut i: usize = 0;
    while i < v.len()
        invariant
            i <= v@.len(),
            out@.len() == i,
            forall|k: int| 0 <= k < i ==> (#[trigger] out@[k])@ == v@[k]@,
        decreases v@.len() - i,
    {
        out.push(v[i].clone());
        i = i + 1;
    }
    proof {
        assert(texts(out@) =~= texts(v@));
    }
    out
}

} // verus!
