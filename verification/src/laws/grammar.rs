//! What the text of an expression means: from the characters of a line over its
//! tokens to the value.

use crate::ask::{ReplySeq, StopView};
use crate::ast::{BinOp, ExprView};
use crate::error::Span;
use crate::expr;
use crate::expr::ScopeSeq;
use crate::laws::evaluation;
use crate::laws::evaluation::Outcome;
use crate::lex;
use crate::lex::{Class, Op, StepView, TokenKindView, TokenView};
use crate::parse;
use crate::spelling;
use crate::text;
use crate::value;
use crate::value::ValueView;
use vstd::prelude::*;

verus! {

/// What some tokens come to as an expression, where they are one.
pub open spec fn value_of_tokens(ts: Seq<TokenView>, scope: ScopeSeq, replies: ReplySeq) -> Option<
    Outcome,
> {
    match parse::operator_expr(ts, 0, 0, replies) {
        (Ok(e), q) => if q == ts.len() {
            Some(expr::evaluated(e, scope, replies))
        } else {
            None
        },
        (Err(_), _) => None,
    }
}

/// What a text comes to as an expression, where it is one.
pub open spec fn value_of_text(s: Seq<char>, scope: ScopeSeq, replies: ReplySeq) -> Option<Outcome> {
    match lex::lexed(s, replies) {
        Ok(ts) => value_of_tokens(ts, scope, replies),
        Err(_) => None,
    }
}

/// A token that is an integer.
pub open spec fn is_int(t: TokenView, n: i64) -> bool {
    t.kind == TokenKindView::Int(n)
}

pub open spec fn is_op(t: TokenView, op: Op) -> bool {
    t.kind == TokenKindView::Op(op)
}

/// An integer token at a place, with no word behind it.
proof fn int_operand(ts: Seq<TokenView>, p: int, n: i64, replies: ReplySeq)
    requires
        0 <= p < ts.len(),
        is_int(ts[p], n),
        p + 1 == ts.len() || ts[p + 1].kind is Op,
    ensures
        parse::unary(ts, p, replies) == (
            Ok::<ExprView, StopView>(ExprView::Literal(ValueView::Int(n), ts[p].span)),
            p + 1,
        ),
{
    let x = ExprView::Literal(ValueView::Int(n), ts[p].span);
    assert(parse::primary(ts, p, replies) == (Ok::<ExprView, StopView>(x), p + 1));
    assert(parse::accessors(ts, x, p + 1) == (Ok::<ExprView, StopView>(x), p + 1));
    assert(parse::postfix(ts, p, replies) == (Ok::<ExprView, StopView>(x), p + 1));
}

/// The last operand, whatever has to follow it.
proof fn last_operand(ts: Seq<TokenView>, p: int, n: i64, min_bp: u8, replies: ReplySeq)
    requires
        p + 1 == ts.len(),
        0 <= p,
        is_int(ts[p], n),
    ensures
        parse::operator_expr(ts, p, min_bp, replies) == (
            Ok::<ExprView, StopView>(ExprView::Literal(ValueView::Int(n), ts[p].span)),
            p + 1,
        ),
{
    int_operand(ts, p, n, replies);
}

/// The operation that an operator stands for.
pub open spec fn stands_for(op: Op) -> BinOp {
    match op {
        Op::OrOr => BinOp::Or,
        Op::AndAnd => BinOp::And,
        Op::EqEq => BinOp::Eq,
        Op::Ne => BinOp::Ne,
        Op::Lt => BinOp::Lt,
        Op::Le => BinOp::Le,
        Op::Gt => BinOp::Gt,
        Op::Ge => BinOp::Ge,
        Op::Plus => BinOp::Add,
        Op::Minus => BinOp::Sub,
        Op::Star => BinOp::Mul,
        Op::Slash => BinOp::Div,
        _ => BinOp::Rem,
    }
}

/// Two integers and an operator between them, as an expression.
proof fn two_operands(ts: Seq<TokenView>, a: i64, b: i64, op: Op, replies: ReplySeq) -> (span: Span)
    requires
        ts.len() == 3,
        is_int(ts[0], a),
        is_op(ts[1], op),
        is_int(ts[2], b),
        parse::infix(op) is Some,
    ensures
        parse::operator_expr(ts, 0, 0, replies) == (
            Ok::<ExprView, StopView>(
                evaluation::joined_by(
                    stands_for(op),
                    ExprView::Literal(ValueView::Int(a), ts[0].span),
                    ExprView::Literal(ValueView::Int(b), ts[2].span),
                    span,
                ),
            ),
            3int,
        ),
{
    let (bin, bp) = parse::infix(op)->0;
    int_operand(ts, 0, a, replies);
    last_operand(ts, 2, b, (bp + 1) as u8, replies);
    let l = ExprView::Literal(ValueView::Int(a), ts[0].span);
    let r = ExprView::Literal(ValueView::Int(b), ts[2].span);
    let span = crate::error::merged(
        crate::ast::span_of_expr(l),
        crate::ast::span_of_expr(r),
    );
    assert(parse::operator_rest(ts, evaluation::joined_by(bin, l, r, span), 3, 0, replies) == (
        Ok::<ExprView, StopView>(evaluation::joined_by(bin, l, r, span)),
        3int,
    ));
    assert(parse::operator_rest(ts, l, 1, 0, replies) == (
        Ok::<ExprView, StopView>(evaluation::joined_by(bin, l, r, span)),
        3int,
    ));
    span
}

/// Two integers with an operator between them mean what they mean in arithmetic.
pub proof fn operators_mean_arithmetic(
    ts: Seq<TokenView>,
    a: i64,
    b: i64,
    op: Op,
    scope: ScopeSeq,
    replies: ReplySeq,
)
    requires
        ts.len() == 3,
        is_int(ts[0], a),
        is_op(ts[1], op),
        is_int(ts[2], b),
    ensures
        op == Op::Plus ==> (value_of_tokens(ts, scope, replies) matches Some(r)
            && evaluation::comes_to(r, a + b)),
        op == Op::Minus ==> (value_of_tokens(ts, scope, replies) matches Some(r)
            && evaluation::comes_to(r, a - b)),
        op == Op::Star ==> (value_of_tokens(ts, scope, replies) matches Some(r)
            && evaluation::comes_to(r, a * b)),
        op == Op::Slash && b != 0 && !(a == i64::MIN && b == -1) ==> (value_of_tokens(
            ts,
            scope,
            replies,
        ) matches Some(Ok(ValueView::Int(q))) && {
            let m = a - q * b;
            (-b < m < b || b < m < -b) && (a >= 0 ==> m >= 0) && (a <= 0 ==> m <= 0)
        }),
        op == Op::Percent && b != 0 && !(a == i64::MIN && b == -1) ==> (value_of_tokens(
            ts,
            scope,
            replies,
        ) matches Some(Ok(ValueView::Int(m))) && (-b < m < b || b < m < -b) && (a >= 0 ==> m >= 0)
            && (a <= 0 ==> m <= 0) && (a - m) % (b as int) == 0),
        op == Op::Lt ==> (value_of_tokens(ts, scope, replies) matches Some(r) && evaluation::says(
            r,
            a < b,
        )),
        op == Op::Le ==> (value_of_tokens(ts, scope, replies) matches Some(r) && evaluation::says(
            r,
            a <= b,
        )),
        op == Op::Gt ==> (value_of_tokens(ts, scope, replies) matches Some(r) && evaluation::says(
            r,
            a > b,
        )),
        op == Op::Ge ==> (value_of_tokens(ts, scope, replies) matches Some(r) && evaluation::says(
            r,
            a >= b,
        )),
        op == Op::EqEq ==> (value_of_tokens(ts, scope, replies) matches Some(r)
            && evaluation::says(r, a == b)),
        op == Op::Ne ==> (value_of_tokens(ts, scope, replies) matches Some(r) && evaluation::says(
            r,
            a != b,
        )),
        op == Op::AndAnd ==> (value_of_tokens(ts, scope, replies) matches Some(r)
            && evaluation::says(r, a != 0 && b != 0)),
        op == Op::OrOr ==> (value_of_tokens(ts, scope, replies) matches Some(r)
            && evaluation::says(r, a != 0 || b != 0)),
{
    if parse::infix(op) is Some {
        let span = two_operands(ts, a, b, op, replies);
        let l = ExprView::Literal(ValueView::Int(a), ts[0].span);
        let r = ExprView::Literal(ValueView::Int(b), ts[2].span);
        evaluation::integer_arithmetic_is_exact(l, r, a, b, span, scope, replies);
        evaluation::integer_comparisons_are_exact(l, r, a, b, span, scope, replies);
        evaluation::logic_is_boolean(
            l,
            r,
            ValueView::Int(a),
            ValueView::Int(b),
            span,
            scope,
            replies,
        );
        if op == Op::Percent && b != 0 && !(a == i64::MIN && b == -1) {
            let q = expr::evaluated(
                evaluation::joined_by(BinOp::Div, l, r, span),
                scope,
                replies,
            )->Ok_0->Int_0;
            let m = expr::evaluated(
                evaluation::joined_by(BinOp::Rem, l, r, span),
                scope,
                replies,
            )->Ok_0->Int_0;
            assert((q * b) % (b as int) == 0) by (nonlinear_arith)
                requires
                    b != 0,
            ;
            assert(a - m == q * b);
        }
    }
}

/// How tightly an operator binds.
pub open spec fn tier(op: Op) -> int {
    match op {
        Op::OrOr => 1,
        Op::AndAnd => 2,
        Op::EqEq => 3,
        Op::Ne => 3,
        Op::Lt => 3,
        Op::Le => 3,
        Op::Gt => 3,
        Op::Ge => 3,
        Op::Plus => 4,
        Op::Minus => 4,
        Op::Star => 5,
        Op::Slash => 5,
        Op::Percent => 5,
        _ => 0,
    }
}

/// Two operators group by how tightly they bind, products before sums before
/// comparisons before `&&` before `||`, and from the left where they bind alike:
/// an expression of three operands is one of two, one of which is again such an
/// expression.
pub proof fn operators_group_by_their_tiers(
    ts: Seq<TokenView>,
    a: i64,
    b: i64,
    c: i64,
    one: Op,
    two: Op,
    scope: ScopeSeq,
    replies: ReplySeq,
)
    requires
        ts.len() == 5,
        is_int(ts[0], a),
        is_op(ts[1], one),
        is_int(ts[2], b),
        is_op(ts[3], two),
        is_int(ts[4], c),
        tier(one) > 0,
        tier(two) > 0,
    ensures
        ({
            let x = ExprView::Literal(ValueView::Int(a), ts[0].span);
            let y = ExprView::Literal(ValueView::Int(b), ts[2].span);
            let z = ExprView::Literal(ValueView::Int(c), ts[4].span);
            let first = stands_for(one);
            let second = stands_for(two);
            parse::operator_expr(ts, 0, 0, replies) matches (Ok(e), q) && q == 5 && if tier(one)
                >= tier(two) {
                &&& e matches ExprView::Binary { op, lhs, rhs, .. }
                &&& op == second
                &&& *rhs == z
                &&& *lhs matches ExprView::Binary { op: inner, lhs: l, rhs: r, .. }
                &&& inner == first
                &&& *l == x
                &&& *r == y
            } else {
                &&& e matches ExprView::Binary { op, lhs, rhs, .. }
                &&& op == first
                &&& *lhs == x
                &&& *rhs matches ExprView::Binary { op: inner, lhs: l, rhs: r, .. }
                &&& inner == second
                &&& *l == y
                &&& *r == z
            }
        }),
{
    let x = ExprView::Literal(ValueView::Int(a), ts[0].span);
    let y = ExprView::Literal(ValueView::Int(b), ts[2].span);
    let z = ExprView::Literal(ValueView::Int(c), ts[4].span);
    let (first, p1) = parse::infix(one)->0;
    let (second, p2) = parse::infix(two)->0;
    int_operand(ts, 0, a, replies);
    int_operand(ts, 2, b, replies);
    last_operand(ts, 4, c, (p2 + 1) as u8, replies);
    assert(parse::operator_expr(ts, 2, (p1 + 1) as u8, replies) == parse::operator_rest(
        ts,
        y,
        3,
        (p1 + 1) as u8,
        replies,
    ));
    if tier(one) >= tier(two) {
        assert(parse::operator_rest(ts, y, 3, (p1 + 1) as u8, replies) == (
            Ok::<ExprView, StopView>(y),
            3int,
        ));
        let left = evaluation::joined_by(
            first,
            x,
            y,
            crate::error::merged(crate::ast::span_of_expr(x), crate::ast::span_of_expr(y)),
        );
        let all = evaluation::joined_by(
            second,
            left,
            z,
            crate::error::merged(crate::ast::span_of_expr(left), crate::ast::span_of_expr(z)),
        );
        assert(parse::operator_rest(ts, all, 5, 0, replies) == (
            Ok::<ExprView, StopView>(all),
            5int,
        ));
        assert(parse::operator_rest(ts, left, 3, 0, replies) == (
            Ok::<ExprView, StopView>(all),
            5int,
        ));
        assert(parse::operator_rest(ts, x, 1, 0, replies) == (
            Ok::<ExprView, StopView>(all),
            5int,
        ));
    } else {
        let right = evaluation::joined_by(
            second,
            y,
            z,
            crate::error::merged(crate::ast::span_of_expr(y), crate::ast::span_of_expr(z)),
        );
        assert(parse::operator_rest(ts, right, 5, (p1 + 1) as u8, replies) == (
            Ok::<ExprView, StopView>(right),
            5int,
        ));
        assert(parse::operator_rest(ts, y, 3, (p1 + 1) as u8, replies) == (
            Ok::<ExprView, StopView>(right),
            5int,
        ));
        let all = evaluation::joined_by(
            first,
            x,
            right,
            crate::error::merged(crate::ast::span_of_expr(x), crate::ast::span_of_expr(right)),
        );
        assert(parse::operator_rest(ts, all, 5, 0, replies) == (
            Ok::<ExprView, StopView>(all),
            5int,
        ));
        assert(parse::operator_rest(ts, x, 1, 0, replies) == (
            Ok::<ExprView, StopView>(all),
            5int,
        ));
    }
}

/// A decimal number up to the end of the line or to a space.
pub proof fn numbers_are_read_as_written(s: Seq<char>, i: int, j: int, v: int, replies: ReplySeq)
    requires
        0 <= i <= j <= s.len(),
        s.subrange(i, j) == text::decimal_text(v),
        j == s.len() || s[j] == ' ',
        -9_007_199_254_740_992 <= v <= 9_007_199_254_740_992,
    ensures
        lex::lex_step(s, i, replies) matches StepView::Token(t, k) && k == j && t.kind
            == TokenKindView::Int(v as i64),
        i < j,
{
    let t = s.subrange(i, j);
    let digits = if v < 0 {
        text::numeral((-v) as nat)
    } else {
        text::numeral(v as nat)
    };
    text::numeral_denotes(
        if v < 0 {
            (-v) as nat
        } else {
            v as nat
        },
    );
    let first = if v < 0 {
        i + 1
    } else {
        i
    };
    if v < 0 {
        assert(t == seq!['-'] + digits);
    } else {
        assert(t == digits);
    }
    assert(t.len() == j - i);
    assert forall|k: int| first <= k < j implies lex::in_class(Class::Digit, #[trigger] s[k]) by {
        assert(s[k] == t[k - i]);
        assert(t[k - i] == digits[k - first]);
    }
    assert(s[i] == t[0]);
    if v < 0 {
        assert(t[0] == '-');
        assert(t.skip(1) =~= digits);
        assert(s[i + 1] == t[1]);
        assert(lex::in_class(Class::Digit, s[i + 1]));
    } else {
        assert(lex::in_class(Class::Digit, s[i]));
    }
    spelling::run_is(s, first, j, Class::Digit);
    assert(lex::number_end(s, i) == (j, false));
    assert(lex::signed_value(t) == v);
}

/// Two integers with a text between them, set apart by spaces.
pub open spec fn spaced(a: int, o: Seq<char>, b: int) -> Seq<char> {
    text::decimal_text(a) + seq![' '] + o + seq![' '] + text::decimal_text(b)
}

/// The characters that operators are written with.
pub open spec fn written(op: Op) -> Seq<char> {
    match op {
        Op::Plus => seq!['+'],
        Op::Minus => seq!['-'],
        Op::Star => seq!['*'],
        Op::Slash => seq!['/'],
        Op::Percent => seq!['%'],
        Op::EqEq => seq!['=', '='],
        Op::Ne => seq!['!', '='],
        Op::Lt => seq!['<'],
        Op::Le => seq!['<', '='],
        Op::Gt => seq!['>'],
        Op::Ge => seq!['>', '='],
        Op::AndAnd => seq!['&', '&'],
        Op::OrOr => seq!['|', '|'],
        Op::LParen => seq!['('],
        Op::RParen => seq![')'],
        Op::LBrace => seq!['{'],
        Op::RBrace => seq!['}'],
        Op::Bang => seq!['!'],
        Op::Assign => seq!['='],
    }
}

/// An operator that a space follows is read as it is written.
pub proof fn operators_are_read_as_written(s: Seq<char>, i: int, op: Op, replies: ReplySeq)
    requires
        0 <= i,
        i + written(op).len() < s.len(),
        s.subrange(i, i + written(op).len()) == written(op),
        s[i + written(op).len()] == ' ',
    ensures
        lex::lex_step(s, i, replies) matches StepView::Token(t, k) && k == i + written(op).len()
            && t.kind == TokenKindView::Op(op),
{
    let n = written(op).len() as int;
    let w = s.subrange(i, i + n);
    assert(s[i] == w[0]);
    if n == 2 {
        assert(s[i + 1] == w[1]);
    }
    if op == Op::Plus || op == Op::Minus || op == Op::Star || op == Op::Slash || op
        == Op::Percent {
        spelling::run_is(s, i, i + 1, Class::Bareword);
        assert(s.subrange(i, i + 1) =~= written(op));
        assert(seq!['+'][0] == '+' && seq!['-'][0] == '-' && seq!['*'][0] == '*' && seq!['/'][0]
            == '/' && seq!['%'][0] == '%');
        assert(!text::letter(' '));
    }
}

proof fn spaced_tokens(a: int, op: Op, b: int, replies: ReplySeq) -> (ts: Seq<TokenView>)
    requires
        -9_007_199_254_740_992 <= a <= 9_007_199_254_740_992,
        -9_007_199_254_740_992 <= b <= 9_007_199_254_740_992,
    ensures
        lex::lexed(spaced(a, written(op), b), replies) == Ok::<Seq<TokenView>, StopView>(ts),
        ts.len() == 3,
        is_int(ts[0], a as i64),
        is_op(ts[1], op),
        is_int(ts[2], b as i64),
{
    let x = text::decimal_text(a);
    let y = text::decimal_text(b);
    let o = written(op);
    let s = spaced(a, o, b);
    let p = x.len() as int;
    let q = p + 1 + o.len();
    let n = s.len() as int;
    assert(s.subrange(0, p) =~= x);
    assert(s.subrange(p + 1, q) =~= o);
    assert(s.subrange(q + 1, n) =~= y);
    assert(s[p] == ' ' && s[q] == ' ');
    numbers_are_read_as_written(s, 0, p, a, replies);
    operators_are_read_as_written(s, p + 1, op, replies);
    numbers_are_read_as_written(s, q + 1, n, b, replies);
    assert(lex::lex_from(s, n, replies)->Ok_0 =~= Seq::empty());
    let t2 = lex::lex_step(s, q + 1, replies)->Token_0;
    spelling::token_goes_first(s, q + 1, t2, n, replies);
    spelling::space_is_skipped(s, q, replies);
    let t1 = lex::lex_step(s, p + 1, replies)->Token_0;
    spelling::token_goes_first(s, p + 1, t1, q, replies);
    spelling::space_is_skipped(s, p, replies);
    let t0 = lex::lex_step(s, 0, replies)->Token_0;
    spelling::token_goes_first(s, 0, t0, p, replies);
    lex::lexed(s, replies)->Ok_0
}

/// Two integers written with an operator between them, as in `12 - 5`, mean what
/// they mean in arithmetic, from the text on.
pub proof fn written_arithmetic_is_arithmetic(a: int, b: int, scope: ScopeSeq, replies: ReplySeq)
    requires
        -9_007_199_254_740_992 <= a <= 9_007_199_254_740_992,
        -9_007_199_254_740_992 <= b <= 9_007_199_254_740_992,
    ensures
        value_of_text(spaced(a, seq!['+'], b), scope, replies) matches Some(r)
            && evaluation::comes_to(r, a + b),
        value_of_text(spaced(a, seq!['-'], b), scope, replies) matches Some(r)
            && evaluation::comes_to(r, a - b),
        value_of_text(spaced(a, seq!['*'], b), scope, replies) matches Some(r)
            && evaluation::comes_to(r, a * b),
        b != 0 ==> (value_of_text(spaced(a, seq!['/'], b), scope, replies) matches Some(
            Ok(ValueView::Int(q)),
        ) && {
            let m = a - q * b;
            (-b < m < b || b < m < -b) && (a >= 0 ==> m >= 0) && (a <= 0 ==> m <= 0)
        }),
        b != 0 ==> (value_of_text(spaced(a, seq!['%'], b), scope, replies) matches Some(
            Ok(ValueView::Int(m)),
        ) && (-b < m < b || b < m < -b) && (a >= 0 ==> m >= 0) && (a <= 0 ==> m <= 0) && (a - m)
            % b == 0),
        value_of_text(spaced(a, seq!['<'], b), scope, replies) matches Some(r)
            && evaluation::says(r, a < b),
        value_of_text(spaced(a, seq!['<', '='], b), scope, replies) matches Some(r)
            && evaluation::says(r, a <= b),
        value_of_text(spaced(a, seq!['>'], b), scope, replies) matches Some(r)
            && evaluation::says(r, a > b),
        value_of_text(spaced(a, seq!['>', '='], b), scope, replies) matches Some(r)
            && evaluation::says(r, a >= b),
        value_of_text(spaced(a, seq!['=', '='], b), scope, replies) matches Some(r)
            && evaluation::says(r, a == b),
        value_of_text(spaced(a, seq!['!', '='], b), scope, replies) matches Some(r)
            && evaluation::says(r, a != b),
        value_of_text(spaced(a, seq!['&', '&'], b), scope, replies) matches Some(r)
            && evaluation::says(r, a != 0 && b != 0),
        value_of_text(spaced(a, seq!['|', '|'], b), scope, replies) matches Some(r)
            && evaluation::says(r, a != 0 || b != 0),
{
    let x = a as i64;
    let y = b as i64;
    let ts = spaced_tokens(a, Op::Plus, b, replies);
    operators_mean_arithmetic(ts, x, y, Op::Plus, scope, replies);
    let ts = spaced_tokens(a, Op::Minus, b, replies);
    operators_mean_arithmetic(ts, x, y, Op::Minus, scope, replies);
    let ts = spaced_tokens(a, Op::Star, b, replies);
    operators_mean_arithmetic(ts, x, y, Op::Star, scope, replies);
    let ts = spaced_tokens(a, Op::Slash, b, replies);
    operators_mean_arithmetic(ts, x, y, Op::Slash, scope, replies);
    let ts = spaced_tokens(a, Op::Percent, b, replies);
    operators_mean_arithmetic(ts, x, y, Op::Percent, scope, replies);
    let ts = spaced_tokens(a, Op::Lt, b, replies);
    operators_mean_arithmetic(ts, x, y, Op::Lt, scope, replies);
    let ts = spaced_tokens(a, Op::Le, b, replies);
    operators_mean_arithmetic(ts, x, y, Op::Le, scope, replies);
    let ts = spaced_tokens(a, Op::Gt, b, replies);
    operators_mean_arithmetic(ts, x, y, Op::Gt, scope, replies);
    let ts = spaced_tokens(a, Op::Ge, b, replies);
    operators_mean_arithmetic(ts, x, y, Op::Ge, scope, replies);
    let ts = spaced_tokens(a, Op::EqEq, b, replies);
    operators_mean_arithmetic(ts, x, y, Op::EqEq, scope, replies);
    let ts = spaced_tokens(a, Op::Ne, b, replies);
    operators_mean_arithmetic(ts, x, y, Op::Ne, scope, replies);
    let ts = spaced_tokens(a, Op::AndAnd, b, replies);
    operators_mean_arithmetic(ts, x, y, Op::AndAnd, scope, replies);
    let ts = spaced_tokens(a, Op::OrOr, b, replies);
    operators_mean_arithmetic(ts, x, y, Op::OrOr, scope, replies);
}

} // verus!
