//! How numbers are written and read.

use crate::text;
use vstd::prelude::*;

verus! {

/// A digit is the character as far behind `0` as its value says; a numeral of more
/// digits is the numeral of the tens, followed by the digit of the ones.
pub proof fn numerals_are_positional(n: nat, d: nat)
    requires
        d < 10,
    ensures
        text::numeral(d).len() == 1,
        text::numeral(d)[0] as int == '0' as int + d,
        n > 0 ==> text::numeral(10 * n + d) == text::numeral(n) + text::numeral(d),
{
    if n > 0 {
        assert((10 * n + d) / 10 == n);
        assert((10 * n + d) % 10 == d);
        assert(text::numeral(10 * n + d) =~= text::numeral(n) + text::numeral(d));
    }
}

/// A negative number is written as its positive with a minus before it.
pub proof fn negative_numbers_have_a_minus(n: int)
    ensures
        n > 0 ==> text::decimal_text(-n) == seq!['-'] + text::decimal_text(n),
        n >= 0 ==> text::decimal_text(n) == text::numeral(n as nat),
{
}

/// A run of digits is read position by position.
pub proof fn digits_are_read_by_position(s: Seq<char>, c: char)
    requires
        '0' <= c <= '9',
    ensures
        text::decimal_value(Seq::empty()) == 0,
        text::decimal_value(s.push(c)) == 10 * text::decimal_value(s) + (c as int - '0' as int),
{
    assert(s.push(c).drop_last() =~= s);
}

} // verus!
