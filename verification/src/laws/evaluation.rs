//! What expressions come to: the arithmetic, the comparisons and the logic of
//! closures, from the tokens of their bodies on.

use crate::ask;
use crate::ask::{FloatOp, QueryView, ReplySeq, ReplyView, StopView};
use crate::ast::{BinOp, ExprView, UnOp};
use crate::error::Span;
use crate::expr;
use crate::expr::ScopeSeq;
use crate::float;
use crate::float::Float;
use crate::value;
use crate::value::ValueView;
use vstd::prelude::*;

verus! {

pub type Outcome = Result<ValueView, StopView>;

/// Two expressions joined by an operator.
pub open spec fn joined_by(op: BinOp, l: ExprView, r: ExprView, span: Span) -> ExprView {
    ExprView::Binary { op, lhs: Box::new(l), rhs: Box::new(r), span }
}

/// Did the expression come to an integer of this mathematical value, or is that
/// value out of the range of integers and the expression an error?
pub open spec fn comes_to(r: Outcome, n: int) -> bool {
    if i64::MIN <= n <= i64::MAX {
        r matches Ok(ValueView::Int(k)) && k == n
    } else {
        r is Err
    }
}

proof fn truncated_division(a: int, b: int, q: int, r: int)
    requires
        b != 0,
        q == (if a == 0 {
            0
        } else if a > 0 && b > 0 {
            a / b
        } else if a < 0 && b < 0 {
            (a * -1) / (b * -1)
        } else if a < 0 {
            ((a * -1) / b) * -1
        } else {
            (a / (b * -1)) * -1
        }),
        r == (if a == 0 {
            0
        } else if a > 0 && b > 0 {
            a % b
        } else if a < 0 && b < 0 {
            ((a * -1) % (b * -1)) * -1
        } else if a < 0 {
            ((a * -1) % b) * -1
        } else {
            a % (b * -1)
        }),
    ensures
        a == q * b + r,
        -b < r < b || b < r < -b,
        a >= 0 ==> r >= 0,
        a <= 0 ==> r <= 0,
{
    if a == 0 {
        assert(0 * b == 0) by (nonlinear_arith);
    } else if a > 0 && b > 0 {
        assert(a == (a / b) * b + a % b && 0 <= a % b < b) by (nonlinear_arith)
            requires
                b > 0,
        ;
    } else if a < 0 && b < 0 {
        let x = a * -1;
        let d = b * -1;
        assert(x == (x / d) * d + x % d && 0 <= x % d < d) by (nonlinear_arith)
            requires
                d > 0,
        ;
        assert((x / d) * b == -((x / d) * d)) by (nonlinear_arith)
            requires
                d == b * -1,
        ;
    } else if a < 0 {
        let x = a * -1;
        assert(x == (x / b) * b + x % b && 0 <= x % b < b) by (nonlinear_arith)
            requires
                b > 0,
        ;
        assert(((x / b) * -1) * b == -((x / b) * b)) by (nonlinear_arith);
    } else {
        let d = b * -1;
        assert(a == (a / d) * d + a % d && 0 <= a % d < d) by (nonlinear_arith)
            requires
                d > 0,
        ;
        assert(((a / d) * -1) * b == (a / d) * d) by (nonlinear_arith)
            requires
                d == b * -1,
        ;
    }
}

/// Integer arithmetic is that of the integers: a sum, a difference and a product
/// are exact, a difference is what has to be added to get the first number back,
/// and a quotient with its remainder gives the dividend back, the remainder being
/// less than the divisor and never of the other sign than the dividend. What does
/// not fit is an error, and so is a division by zero.
pub proof fn integer_arithmetic_is_exact(
    l: ExprView,
    r: ExprView,
    a: i64,
    b: i64,
    span: Span,
    scope: ScopeSeq,
    replies: ReplySeq,
)
    requires
        expr::evaluated(l, scope, replies) == Ok::<ValueView, StopView>(ValueView::Int(a)),
        expr::evaluated(r, scope, replies) == Ok::<ValueView, StopView>(ValueView::Int(b)),
    ensures
        comes_to(expr::evaluated(joined_by(BinOp::Add, l, r, span), scope, replies), a + b),
        comes_to(expr::evaluated(joined_by(BinOp::Mul, l, r, span), scope, replies), a * b),
        expr::evaluated(joined_by(BinOp::Sub, l, r, span), scope, replies) matches Ok(
            ValueView::Int(n),
        ) ==> n + b == a,
        expr::evaluated(joined_by(BinOp::Sub, l, r, span), scope, replies) matches Ok(v)
            ==> v is Int,
        i64::MIN <= a - b <= i64::MAX <==> expr::evaluated(
            joined_by(BinOp::Sub, l, r, span),
            scope,
            replies,
        ) is Ok,
        ({
            let quotient = expr::evaluated(joined_by(BinOp::Div, l, r, span), scope, replies);
            let remainder = expr::evaluated(joined_by(BinOp::Rem, l, r, span), scope, replies);
            if b == 0 || (a == i64::MIN && b == -1) {
                quotient is Err && remainder is Err
            } else {
                &&& quotient matches Ok(ValueView::Int(q))
                &&& remainder matches Ok(ValueView::Int(m))
                &&& a == q * b + m
                &&& -b < m < b || b < m < -b
                &&& a >= 0 ==> m >= 0
                &&& a <= 0 ==> m <= 0
            }
        }),
{
    let quotient = expr::evaluated(joined_by(BinOp::Div, l, r, span), scope, replies);
    if b != 0 && !(a == i64::MIN && b == -1) {
        let q = if a == 0 {
            0
        } else if a > 0 && b > 0 {
            a as int / b as int
        } else if a < 0 && b < 0 {
            (a * -1) / (b * -1)
        } else if a < 0 {
            ((a * -1) / b as int) * -1
        } else {
            (a as int / (b * -1)) * -1
        };
        let m = if a == 0 {
            0
        } else if a > 0 && b > 0 {
            a as int % b as int
        } else if a < 0 && b < 0 {
            ((a * -1) % (b * -1)) * -1
        } else if a < 0 {
            ((a * -1) % b as int) * -1
        } else {
            a as int % (b * -1)
        };
        truncated_division(a as int, b as int, q, m);
        quotient_fits(a as int, b as int, q, m);
    }
}

proof fn quotient_fits(a: int, b: int, q: int, m: int)
    requires
        b != 0,
        i64::MIN <= a <= i64::MAX,
        i64::MIN <= b <= i64::MAX,
        !(a == i64::MIN && b == -1),
        a == q * b + m,
        -b < m < b || b < m < -b,
        a >= 0 ==> m >= 0,
        a <= 0 ==> m <= 0,
    ensures
        i64::MIN <= q <= i64::MAX,
        i64::MIN <= m <= i64::MAX,
{
    if b == 1 {
        assert(q * 1 == q);
    } else if b == -1 {
        assert(q * -1 == -q) by (nonlinear_arith);
    } else {
        assert(-0x8000_0000_0000_0000 <= q <= 0x7fff_ffff_ffff_ffff) by (nonlinear_arith)
            requires
                b >= 2 || b <= -2,
                a == q * b + m,
                -b < m < b || b < m < -b,
                -0x8000_0000_0000_0000 <= a <= 0x7fff_ffff_ffff_ffff,
                a >= 0 ==> m >= 0,
                a <= 0 ==> m <= 0,
        ;
    }
}

/// A negated integer and the integer come to nothing together; the least integer
/// has no negation.
pub proof fn negation_cancels(
    e: ExprView,
    a: i64,
    span: Span,
    scope: ScopeSeq,
    replies: ReplySeq,
)
    requires
        expr::evaluated(e, scope, replies) == Ok::<ValueView, StopView>(ValueView::Int(a)),
    ensures
        comes_to(
            expr::evaluated(
                ExprView::Unary { op: UnOp::Neg, operand: Box::new(e), span },
                scope,
                replies,
            ),
            0 - a,
        ),
{
}

/// Arithmetic with a float is the host's: each operator asks for the operation of
/// its name, on the numbers in the order in which they stand, and an integer joins
/// in as the nearest float.
pub proof fn float_arithmetic_is_asked_for(
    op: BinOp,
    l: ExprView,
    r: ExprView,
    x: ValueView,
    y: ValueView,
    a: Float,
    b: Float,
    f: Float,
    span: Span,
    scope: ScopeSeq,
    replies: ReplySeq,
)
    requires
        expr::evaluated(l, scope, replies) == Ok::<ValueView, StopView>(x),
        expr::evaluated(r, scope, replies) == Ok::<ValueView, StopView>(y),
        x is Float || y is Float,
        x == ValueView::Float(a) || (x matches ValueView::Int(n) && a == float::nearest_float(n)),
        y == ValueView::Float(b) || (y matches ValueView::Int(n) && b == float::nearest_float(n)),
    ensures
        expr::evaluated(joined_by(BinOp::Add, l, r, span), scope, replies) == Ok::<
            ValueView,
            StopView,
        >(ValueView::Float(f)) <==> ask::reply_to(replies, QueryView::Compute(FloatOp::Add, a, b))
            == Some(ReplyView::Float(f)),
        expr::evaluated(joined_by(BinOp::Sub, l, r, span), scope, replies) == Ok::<
            ValueView,
            StopView,
        >(ValueView::Float(f)) <==> ask::reply_to(replies, QueryView::Compute(FloatOp::Sub, a, b))
            == Some(ReplyView::Float(f)),
        expr::evaluated(joined_by(BinOp::Mul, l, r, span), scope, replies) == Ok::<
            ValueView,
            StopView,
        >(ValueView::Float(f)) <==> ask::reply_to(replies, QueryView::Compute(FloatOp::Mul, a, b))
            == Some(ReplyView::Float(f)),
        expr::evaluated(joined_by(BinOp::Div, l, r, span), scope, replies) == Ok::<
            ValueView,
            StopView,
        >(ValueView::Float(f)) <==> ask::reply_to(replies, QueryView::Compute(FloatOp::Div, a, b))
            == Some(ReplyView::Float(f)),
        expr::evaluated(joined_by(BinOp::Rem, l, r, span), scope, replies) == Ok::<
            ValueView,
            StopView,
        >(ValueView::Float(f)) <==> ask::reply_to(replies, QueryView::Compute(FloatOp::Rem, a, b))
            == Some(ReplyView::Float(f)),
{
}

pub open spec fn says(r: Outcome, b: bool) -> bool {
    r == Ok::<ValueView, StopView>(ValueView::Bool(b))
}

/// Integers compare as integers do.
pub proof fn integer_comparisons_are_exact(
    l: ExprView,
    r: ExprView,
    a: i64,
    b: i64,
    span: Span,
    scope: ScopeSeq,
    replies: ReplySeq,
)
    requires
        expr::evaluated(l, scope, replies) == Ok::<ValueView, StopView>(ValueView::Int(a)),
        expr::evaluated(r, scope, replies) == Ok::<ValueView, StopView>(ValueView::Int(b)),
    ensures
        says(expr::evaluated(joined_by(BinOp::Lt, l, r, span), scope, replies), a < b),
        says(expr::evaluated(joined_by(BinOp::Le, l, r, span), scope, replies), a <= b),
        says(expr::evaluated(joined_by(BinOp::Gt, l, r, span), scope, replies), a > b),
        says(expr::evaluated(joined_by(BinOp::Ge, l, r, span), scope, replies), a >= b),
        says(expr::evaluated(joined_by(BinOp::Eq, l, r, span), scope, replies), a == b),
        says(expr::evaluated(joined_by(BinOp::Ne, l, r, span), scope, replies), a != b),
{
}

/// Does a text come before another: by the first character in which they differ,
/// or by being its beginning?
pub open spec fn comes_before(a: Seq<char>, b: Seq<char>) -> bool {
    exists|k: int| #[trigger] parts_at(a, b, k)
}

/// Do two texts agree up to a place, where the first ends or has the lesser
/// character?
pub open spec fn parts_at(a: Seq<char>, b: Seq<char>, k: int) -> bool {
    &&& 0 <= k <= a.len()
    &&& k < b.len()
    &&& forall|i: int| 0 <= i < k ==> a[i] == b[i]
    &&& k == a.len() || a[k] < b[k]
}

/// The order of texts: less where the first comes before, greater where the second
/// does, equal where they are one and the same.
pub proof fn texts_are_ordered_by_their_first_difference(a: Seq<char>, b: Seq<char>)
    ensures
        crate::text::text_order(a, b) == std::cmp::Ordering::Less <==> comes_before(a, b),
        crate::text::text_order(a, b) == std::cmp::Ordering::Greater <==> comes_before(b, a),
        crate::text::text_order(a, b) == std::cmp::Ordering::Equal <==> a == b,
    decreases a.len(),
{
    crate::text::text_order_total(a, b, a);
    if a.len() == 0 {
        if b.len() > 0 {
            assert(parts_at(a, b, 0));
            assert(!comes_before(b, a));
        } else {
            assert(a =~= b);
            assert(!comes_before(a, b));
            assert(!comes_before(b, a));
        }
    } else if b.len() == 0 {
        assert(parts_at(b, a, 0));
        assert(!comes_before(a, b));
    } else if a[0] == b[0] {
        let x = a.drop_first();
        let y = b.drop_first();
        texts_are_ordered_by_their_first_difference(x, y);
        shifted(a, b);
        shifted(b, a);
    } else if a[0] < b[0] {
        characters_go_by_their_codes(a[0], b[0]);
        assert(parts_at(a, b, 0));
        differ_at_once(b, a);
    } else {
        characters_go_by_their_codes(a[0], b[0]);
        assert(parts_at(b, a, 0));
        differ_at_once(a, b);
    }
}

proof fn characters_go_by_their_codes(a: char, b: char)
    ensures
        crate::text::char_before(a, b) <==> a < b,
{
}

proof fn differ_at_once(a: Seq<char>, b: Seq<char>)
    requires
        a.len() > 0,
        b.len() > 0,
        b[0] < a[0],
    ensures
        !comes_before(a, b),
{
    if comes_before(a, b) {
        let k = choose|k: int| #[trigger] parts_at(a, b, k);
        if k > 0 {
            assert(a[0] == b[0]);
        }
    }
}

proof fn shifted(a: Seq<char>, b: Seq<char>)
    requires
        a.len() > 0,
        b.len() > 0,
        a[0] == b[0],
    ensures
        comes_before(a, b) <==> comes_before(a.drop_first(), b.drop_first()),
{
    let x = a.drop_first();
    let y = b.drop_first();
    if comes_before(a, b) {
        let k = choose|k: int| #[trigger] parts_at(a, b, k);
        assert(k > 0);
        assert forall|i: int| 0 <= i < k - 1 implies x[i] == y[i] by {
            assert(a[i + 1] == b[i + 1]);
        }
        assert(parts_at(x, y, k - 1));
    }
    if comes_before(x, y) {
        let k = choose|k: int| #[trigger] parts_at(x, y, k);
        assert forall|i: int| 0 <= i < k + 1 implies a[i] == b[i] by {
            if i > 0 {
                assert(x[i - 1] == y[i - 1]);
            }
        }
        assert(parts_at(a, b, k + 1));
    }
}

/// Texts compare by their first difference, and are equal only where they are one
/// and the same.
pub proof fn text_comparisons_follow_the_characters(
    l: ExprView,
    r: ExprView,
    a: Seq<char>,
    b: Seq<char>,
    span: Span,
    scope: ScopeSeq,
    replies: ReplySeq,
)
    requires
        expr::evaluated(l, scope, replies) == Ok::<ValueView, StopView>(ValueView::Str(a)),
        expr::evaluated(r, scope, replies) == Ok::<ValueView, StopView>(ValueView::Str(b)),
    ensures
        says(
            expr::evaluated(joined_by(BinOp::Lt, l, r, span), scope, replies),
            comes_before(a, b),
        ),
        says(
            expr::evaluated(joined_by(BinOp::Gt, l, r, span), scope, replies),
            comes_before(b, a),
        ),
        says(
            expr::evaluated(joined_by(BinOp::Le, l, r, span), scope, replies),
            !comes_before(b, a),
        ),
        says(
            expr::evaluated(joined_by(BinOp::Ge, l, r, span), scope, replies),
            !comes_before(a, b),
        ),
        says(expr::evaluated(joined_by(BinOp::Eq, l, r, span), scope, replies), a == b),
        says(expr::evaluated(joined_by(BinOp::Ne, l, r, span), scope, replies), a != b),
        expr::evaluated(joined_by(BinOp::Add, l, r, span), scope, replies) == Ok::<
            ValueView,
            StopView,
        >(ValueView::Str(a + b)),
{
    texts_are_ordered_by_their_first_difference(a, b);
}

/// An integer below 2^53 compares with a float by what both stand for; what is not
/// a number compares with nothing and equals nothing.
pub proof fn mixed_comparisons_follow_the_values(
    l: ExprView,
    r: ExprView,
    n: i64,
    f: Float,
    span: Span,
    scope: ScopeSeq,
    replies: ReplySeq,
)
    requires
        expr::evaluated(l, scope, replies) == Ok::<ValueView, StopView>(ValueView::Int(n)),
        expr::evaluated(r, scope, replies) == Ok::<ValueView, StopView>(ValueView::Float(f)),
        -0x20_0000_0000_0000 < n < 0x20_0000_0000_0000,
    ensures
        !f.nan() ==> {
            let at = n * float::unit_scale();
            &&& says(
                expr::evaluated(joined_by(BinOp::Lt, l, r, span), scope, replies),
                at < f.value(),
            )
            &&& says(
                expr::evaluated(joined_by(BinOp::Ge, r, l, span), scope, replies),
                f.value() >= at,
            )
            &&& says(
                expr::evaluated(joined_by(BinOp::Gt, r, l, span), scope, replies),
                f.value() > at,
            )
            &&& says(
                expr::evaluated(joined_by(BinOp::Le, l, r, span), scope, replies),
                at <= f.value(),
            )
            &&& says(
                expr::evaluated(joined_by(BinOp::Eq, l, r, span), scope, replies),
                at == f.value(),
            )
        },
        f.nan() ==> says(
            expr::evaluated(joined_by(BinOp::Eq, l, r, span), scope, replies),
            false,
        ) && expr::evaluated(joined_by(BinOp::Lt, l, r, span), scope, replies) is Err,
{
    let x = float::nearest_float(n);
    float::the_nearest_float_is_nearest(n, f);
    float::ranks_follow_values(x, f);
    float::ranks_follow_values(f, x);
}

/// A comparison with null is false, whichever side it is on.
pub proof fn null_compares_as_false(
    l: ExprView,
    r: ExprView,
    v: ValueView,
    w: ValueView,
    span: Span,
    scope: ScopeSeq,
    replies: ReplySeq,
)
    requires
        expr::evaluated(l, scope, replies) == Ok::<ValueView, StopView>(v),
        expr::evaluated(r, scope, replies) == Ok::<ValueView, StopView>(w),
        v is Null || w is Null,
    ensures
        says(expr::evaluated(joined_by(BinOp::Lt, l, r, span), scope, replies), false),
        says(expr::evaluated(joined_by(BinOp::Le, l, r, span), scope, replies), false),
        says(expr::evaluated(joined_by(BinOp::Gt, l, r, span), scope, replies), false),
        says(expr::evaluated(joined_by(BinOp::Ge, l, r, span), scope, replies), false),
        says(expr::evaluated(joined_by(BinOp::Eq, l, r, span), scope, replies), v == w),
{
}

/// What counts as false: null, false, zero of either kind, what is not a number,
/// and the empty text. Everything else counts as true.
pub open spec fn counts_as_false(v: ValueView) -> bool {
    match v {
        ValueView::Null => true,
        ValueView::Bool(b) => !b,
        ValueView::Int(n) => n == 0,
        ValueView::Float(f) => f.nan() || f.value() == 0,
        ValueView::Str(s) => s.len() == 0,
        _ => false,
    }
}

/// `!`, `&&` and `||` are negation, conjunction and disjunction of what counts as
/// true.
pub proof fn logic_is_boolean(
    l: ExprView,
    r: ExprView,
    v: ValueView,
    w: ValueView,
    span: Span,
    scope: ScopeSeq,
    replies: ReplySeq,
)
    requires
        expr::evaluated(l, scope, replies) == Ok::<ValueView, StopView>(v),
        expr::evaluated(r, scope, replies) == Ok::<ValueView, StopView>(w),
    ensures
        says(
            expr::evaluated(
                ExprView::Unary { op: UnOp::Not, operand: Box::new(l), span },
                scope,
                replies,
            ),
            counts_as_false(v),
        ),
        says(
            expr::evaluated(joined_by(BinOp::And, l, r, span), scope, replies),
            !counts_as_false(v) && !counts_as_false(w),
        ),
        says(
            expr::evaluated(joined_by(BinOp::Or, l, r, span), scope, replies),
            !counts_as_false(v) || !counts_as_false(w),
        ),
{
    zero_has_rank_zero(v);
    zero_has_rank_zero(w);
}

pub(crate) proof fn zero_has_rank_zero(v: ValueView)
    ensures
        v matches ValueView::Float(f) ==> (f.rank() == 0 <==> f.value() == 0),
{
    match v {
        ValueView::Float(f) => {
            let zero = Float { bits: 0 };
            float::ranks_follow_values(f, zero);
            assert(zero.rank() == 0);
            assert(zero.value() == 0);
        },
        _ => {},
    }
}

} // verus!
