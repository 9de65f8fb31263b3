//! Double-precision numbers by their bit pattern. The library carries them,
//! compares them and converts integers to them; what only a floating-point
//! unit computes is asked of the program around it (see `ask`).

use std::cmp::Ordering;
use vstd::arithmetic::div_mod::lemma_div_denominator;
use vstd::prelude::*;

verus! {

/// A double by its IEEE 754 bit pattern.
#[derive(Clone, Copy, Debug, PartialEq, Eq, Structural)]
pub struct Float {
    pub bits: u64,
}

/// The sign bit.
pub const SIGN: u64 = 0x8000_0000_0000_0000;

/// The pattern of positive infinity; greater magnitudes are not numbers.
pub const INFINITE: u64 = 0x7ff0_0000_0000_0000;

pub const TWO_52: u64 = 0x10_0000_0000_0000;

pub const TWO_53: u64 = 0x20_0000_0000_0000;

impl Float {
    /// The pattern without its sign.
    pub open spec fn spec_magnitude(self) -> int {
        if self.bits >= SIGN {
            self.bits - SIGN
        } else {
            self.bits as int
        }
    }

    pub open spec fn nan(self) -> bool {
        self.spec_magnitude() > INFINITE
    }

    pub open spec fn finite(self) -> bool {
        self.spec_magnitude() < INFINITE
    }

    /// Position of a number on the number line: patterns of equal sign are
    /// ordered as their magnitudes, and both zeros stand at zero.
    pub open spec fn rank(self) -> int {
        if self.bits >= SIGN {
            -self.spec_magnitude()
        } else {
            self.spec_magnitude()
        }
    }

    /// The number of the opposite sign.
    pub open spec fn negated(self) -> Float {
        if self.bits >= SIGN {
            Float { bits: (self.bits - SIGN) as u64 }
        } else {
            Float { bits: (self.bits + SIGN) as u64 }
        }
    }

    pub fn magnitude(self) -> (r: u64)
        ensures
            r == self.spec_magnitude(),
    {
        if self.bits >= SIGN {
            self.bits - SIGN
        } else {
            self.bits
        }
    }

    pub fn is_nan(self) -> (r: bool)
        ensures
            r == self.nan(),
    {
        self.magnitude() > INFINITE
    }

    pub fn is_finite(self) -> (r: bool)
        ensures
            r == self.finite(),
    {
        self.magnitude() < INFINITE
    }

    /// Is this a zero of either sign?
    pub fn is_zero(self) -> (r: bool)
        ensures
            r == (self.rank() == 0),
    {
        self.magnitude() == 0
    }

    pub fn negate(self) -> (r: Float)
        ensures
            r == self.negated(),
    {
        if self.bits >= SIGN {
            Float { bits: self.bits - SIGN }
        } else {
            Float { bits: self.bits + SIGN }
        }
    }

    /// Numeric equality: both zeros are equal, and what is not a number
    /// equals nothing.
    pub fn equals(self, other: Float) -> (r: bool)
        ensures
            r == floats_equal(self, other),
    {
        let a: u64 = self.magnitude();
        let b: u64 = other.magnitude();
        if a > INFINITE || b > INFINITE {
            false
        } else {
            self.bits == other.bits || (a == 0 && b == 0)
        }
    }

    /// Is this number less than the other?
    pub fn less(self, other: Float) -> (r: bool)
        ensures
            r == floats_less(self, other),
    {
        let a: u64 = self.magnitude();
        let b: u64 = other.magnitude();
        if a > INFINITE || b > INFINITE {
            false
        } else if self.bits >= SIGN {
            if other.bits >= SIGN {
                a > b
            } else {
                a != 0 || b != 0
            }
        } else {
            other.bits < SIGN && a < b
        }
    }
}

pub open spec fn floats_equal(a: Float, b: Float) -> bool {
    !a.nan() && !b.nan() && a.rank() == b.rank()
}

pub open spec fn floats_less(a: Float, b: Float) -> bool {
    !a.nan() && !b.nan() && a.rank() < b.rank()
}

/// Negating twice gives the number back, and negation mirrors the order.
pub proof fn negation_mirrors(a: Float, b: Float)
    ensures
        a.negated().negated() == a,
        floats_less(a, b) <==> floats_less(b.negated(), a.negated()),
        a.nan() <==> a.negated().nan(),
{
}

/// How two numbers compare; nothing where either is not a number.
pub open spec fn float_order(a: Float, b: Float) -> Option<Ordering> {
    if a.nan() || b.nan() {
        None
    } else if a.rank() < b.rank() {
        Some(Ordering::Less)
    } else if a.rank() == b.rank() {
        Some(Ordering::Equal)
    } else {
        Some(Ordering::Greater)
    }
}

pub fn order_of_floats(a: Float, b: Float) -> (r: Option<Ordering>)
    ensures
        r == float_order(a, b),
{
    if a.is_nan() || b.is_nan() {
        None
    } else if a.less(b) {
        Some(Ordering::Less)
    } else if b.less(a) {
        Some(Ordering::Greater)
    } else {
        Some(Ordering::Equal)
    }
}

/// The spacing of doubles around an integer: the power of two by which it has
/// to be divided until 53 bits hold it.
pub open spec fn spacing(m: nat) -> nat
    decreases m,
{
    if m < TWO_53 {
        1
    } else {
        2 * spacing(m / 2)
    }
}

/// How many spacings the nearest double is away from zero; of two equally
/// near ones the even multiple is taken.
pub open spec fn nearest(m: nat) -> nat {
    let u = spacing(m);
    let q = m / u;
    let r = m % u;
    if 2 * r > u || (2 * r == u && q % 2 == 1) {
        q + 1
    } else {
        q
    }
}

/// The power of two that scales a significand up to 53 bits.
pub open spec fn scale_up(q: nat) -> nat
    decreases
        (if q >= TWO_52 {
            0
        } else {
            TWO_52 - q
        }),
{
    if q == 0 || q >= TWO_52 {
        1
    } else {
        2 * scale_up(2 * q)
    }
}

/// Logarithm of a power of two.
pub open spec fn log2(u: nat) -> nat
    decreases u,
{
    if u <= 1 {
        0
    } else {
        1 + log2(u / 2)
    }
}

/// The pattern of the double nearest to a natural number.
pub open spec fn pattern_of(m: nat) -> int {
    if m == 0 {
        0
    } else {
        let q = nearest(m);
        let f = scale_up(q);
        (1075 + log2(spacing(m)) - log2(f)) * TWO_52 + (q * f - TWO_52)
    }
}

/// The double nearest to an integer.
pub open spec fn float_of(n: int) -> Float {
    if n < 0 {
        Float { bits: (SIGN + pattern_of((-n) as nat)) as u64 }
    } else {
        Float { bits: pattern_of(n as nat) as u64 }
    }
}

/// The double nearest to a machine integer.
pub open spec fn nearest_float(n: i64) -> Float {
    float_of(n as int)
}

/// The nearest multiple of the spacing, the spacing and its logarithm.
fn round_to_spacing(m: u64) -> (r: (u64, u64, u64))
    requires
        0 < m,
    ensures
        r.0 == nearest(m as nat),
        r.1 == spacing(m as nat),
        r.2 == log2(spacing(m as nat)),
        0 < r.0 <= TWO_53,
        r.2 <= 11,
{
    let mut c: u64 = m;
    let mut u: u64 = 1;
    let mut s: u64 = 0;
    proof {
        assert(spacing(m as nat) == 1 * spacing(m as nat));
    }
    while c >= TWO_53
        invariant
            0 < m,
            0 < u < 4096,
            c == m / u,
            0 < c,
            s == log2(u as nat),
            s <= 11,
            spacing(m as nat) == u * spacing(c as nat),
        decreases c,
    {
        proof {
            assert(c * u <= m) by (nonlinear_arith)
                requires
                    c == m / u,
                    u > 0,
            ;
            assert(u < 2048) by (nonlinear_arith)
                requires
                    c * u <= m,
                    c >= 0x20_0000_0000_0000,
                    m <= 0xffff_ffff_ffff_ffff,
            ;
            lemma_div_denominator(m as int, u as int, 2);
            assert(u * (2 * spacing((c / 2) as nat)) == (u * 2) * spacing((c / 2) as nat))
                by (nonlinear_arith);
            assert((u * 2) as nat / 2 == u as nat);
        }
        c = c / 2;
        u = u * 2;
        s = s + 1;
        proof {
            log2_bound(u as nat);
        }
    }
    let q: u64 = m / u;
    let r: u64 = m % u;
    proof {
        assert(spacing(c as nat) == 1);
        assert(u * spacing(c as nat) == u) by (nonlinear_arith)
            requires
                spacing(c as nat) == 1,
        ;
    }
    if 2 * r > u || (2 * r == u && q % 2 == 1) {
        (q + 1, u, s)
    } else {
        (q, u, s)
    }
}

proof fn log2_bound(u: nat)
    requires
        u < 4096,
    ensures
        log2(u) <= 11,
{
    reveal_with_fuel(log2, 13);
}

/// The significand scaled up to 53 bits, and the logarithm of the factor.
fn scale_significand(q: u64) -> (r: (u64, u64))
    requires
        0 < q <= TWO_53,
    ensures
        r.0 == q * scale_up(q as nat),
        r.1 == log2(scale_up(q as nat)),
        TWO_52 <= r.0 <= TWO_53,
        r.1 <= 52,
{
    let mut x: u64 = q;
    let mut t: u64 = 0;
    let ghost mut f: nat = 1;
    while x < TWO_52
        invariant
            0 < q <= TWO_53,
            0 < x <= TWO_53,
            f > 0,
            t == log2(f),
            x == q * f,
            scale_up(q as nat) == f * scale_up(x as nat),
            x < TWO_52 || t <= 52,
            doubled(t as nat) <= x,
            t <= 52,
        decreases TWO_53 - x,
    {
        proof {
            assert(f * (2 * scale_up((2 * x) as nat)) == (2 * f) * scale_up((2 * x) as nat))
                by (nonlinear_arith);
            assert(q * (2 * f) == 2 * (q * f)) by (nonlinear_arith);
            assert((2 * f) / 2 == f);
            f = 2 * f;
            doubled_bound(t as nat, x as nat);
        }
        x = 2 * x;
        t = t + 1;
    }
    proof {
        assert(f * scale_up(x as nat) == f) by (nonlinear_arith)
            requires
                scale_up(x as nat) == 1,
        ;
    }
    (x, t)
}

/// `2` to the power of `t`.
pub open spec fn doubled(t: nat) -> nat
    decreases t,
{
    if t == 0 {
        1
    } else {
        2 * doubled((t - 1) as nat)
    }
}

proof fn doubled_bound(t: nat, x: nat)
    requires
        doubled(t) <= x,
        x < TWO_52,
        t <= 52,
    ensures
        t < 52,
{
    if t == 52 {
        reveal_with_fuel(doubled, 53);
    }
}

fn pattern(m: u64) -> (r: u64)
    requires
        m <= SIGN,
    ensures
        r == pattern_of(m as nat),
        r < INFINITE,
{
    if m == 0 {
        0
    } else {
        let (q, _, s) = round_to_spacing(m);
        let (x, t) = scale_significand(q);
        (1075 + s - t) * TWO_52 + (x - TWO_52)
    }
}

/// The double nearest to an integer, the even one of two that are equally
/// near.
pub fn from_int(n: i64) -> (r: Float)
    ensures
        r == nearest_float(n),
        r.finite(),
{
    if n < 0 {
        let m: u64 = (-(n as i128)) as u64;
        Float { bits: SIGN + pattern(m) }
    } else {
        Float { bits: pattern(n as u64) }
    }
}

/// Has the number no fractional part? Below the exponent of one only zero is
/// whole; from 2^52 on every number is; between them the bits below the point
/// are zero.
pub open spec fn whole(f: Float) -> bool {
    let exponent = f.spec_magnitude() / TWO_52 as int;
    let fraction = f.spec_magnitude() % TWO_52 as int;
    if exponent >= 1075 {
        f.finite()
    } else if exponent < 1023 {
        f.spec_magnitude() == 0
    } else {
        fraction % doubled((1075 - exponent) as nat) as int == 0
    }
}

impl Float {
    pub fn is_whole(self) -> (r: bool)
        ensures
            r == whole(self),
    {
        let m: u64 = self.magnitude();
        let exponent: u64 = m / TWO_52;
        let fraction: u64 = m % TWO_52;
        if exponent >= 1075 {
            m < INFINITE
        } else if exponent < 1023 {
            m == 0
        } else {
            let k: u64 = 1075 - exponent;
            let mut unit: u64 = 1;
            let mut i: u64 = 0;
            proof {
                assert(doubled(52) == 0x10_0000_0000_0000) by {
                    reveal_with_fuel(doubled, 53);
                }
                doubled_monotone(k as nat, 52);
            }
            while i < k
                invariant
                    i <= k <= 52,
                    unit == doubled(i as nat),
                    unit <= 0x10_0000_0000_0000,
                    unit >= 1,
                    doubled(k as nat) <= 0x10_0000_0000_0000,
                decreases k - i,
            {
                proof {
                    doubled_monotone((i + 1) as nat, k as nat);
                }
                unit = unit * 2;
                i = i + 1;
            }
            fraction % unit == 0
        }
    }
}

proof fn doubled_monotone(a: nat, b: nat)
    requires
        a <= b,
    ensures
        doubled(a) <= doubled(b),
    decreases b,
{
    if a < b {
        doubled_monotone(a, (b - 1) as nat);
    }
}

/// The value of a magnitude in units of the least positive double, two to the
/// power of -1074.
pub open spec fn scaled(m: nat) -> nat {
    let exponent = m / TWO_52 as nat;
    let fraction = m % TWO_52 as nat;
    if exponent == 0 {
        fraction
    } else {
        (TWO_52 as nat + fraction) * doubled((exponent - 1) as nat)
    }
}

/// One in these units.
pub open spec fn unit_scale() -> nat {
    doubled(1074)
}

impl Float {
    /// The number itself, in units of the least positive double.
    pub open spec fn value(self) -> int {
        if self.bits >= SIGN {
            -(scaled(self.spec_magnitude() as nat) as int)
        } else {
            scaled(self.spec_magnitude() as nat) as int
        }
    }
}

pub(crate) proof fn doubled_positive(t: nat)
    ensures
        doubled(t) > 0,
    decreases t,
{
    if t > 0 {
        doubled_positive((t - 1) as nat);
    }
}

proof fn doubled_adds(a: nat, b: nat)
    ensures
        doubled(a + b) == doubled(a) * doubled(b),
    decreases a,
{
    if a > 0 {
        doubled_adds((a - 1) as nat, b);
        assert((a + b - 1) as nat == (a - 1) as nat + b);
        assert(2 * (doubled((a - 1) as nat) * doubled(b)) == (2 * doubled((a - 1) as nat))
            * doubled(b)) by (nonlinear_arith);
    } else {
        assert(1 * doubled(b) == doubled(b));
    }
}

proof fn scaled_step(m: nat)
    ensures
        scaled(m) < scaled(m + 1),
{
    let w = TWO_52 as nat;
    let e = m / w;
    let f = m % w;
    if f + 1 < w {
        assert((m + 1) / w == e && (m + 1) % w == f + 1) by (nonlinear_arith)
            requires
                e == m / w,
                f == m % w,
                f + 1 < w,
        ;
        if e > 0 {
            let d = doubled((e - 1) as nat);
            doubled_positive((e - 1) as nat);
            assert((w + f) * d < (w + (f + 1)) * d) by (nonlinear_arith)
                requires
                    d > 0,
            ;
        }
    } else {
        assert((m + 1) / w == e + 1 && (m + 1) % w == 0) by (nonlinear_arith)
            requires
                e == m / w,
                f == m % w,
                f + 1 == w,
        ;
        doubled_positive(e);
        if e > 0 {
            let d = doubled((e - 1) as nat);
            doubled_positive((e - 1) as nat);
            assert(doubled(e) == 2 * d);
            assert((w + f) * d < (w + 0) * (2 * d)) by (nonlinear_arith)
                requires
                    d > 0,
                    f + 1 == w,
            ;
        } else {
            assert(doubled(0) == 1);
            assert((w + 0) * 1 == w);
        }
    }
}

proof fn scaled_monotone(a: nat, b: nat)
    requires
        a < b,
    ensures
        scaled(a) < scaled(b),
    decreases b,
{
    scaled_step((b - 1) as nat);
    if a < b - 1 {
        scaled_monotone(a, (b - 1) as nat);
    }
}

/// Patterns are ordered as the numbers that they stand for.
pub proof fn ranks_follow_values(a: Float, b: Float)
    ensures
        a.rank() < b.rank() <==> a.value() < b.value(),
        a.rank() == b.rank() <==> a.value() == b.value(),
{
    let x = a.spec_magnitude() as nat;
    let y = b.spec_magnitude() as nat;
    assert(scaled(0) == 0);
    if x > 0 {
        scaled_monotone(0, x);
    }
    if y > 0 {
        scaled_monotone(0, y);
    }
    if x < y {
        scaled_monotone(x, y);
    }
    if y < x {
        scaled_monotone(y, x);
    }
}

/// Integers are ordered as before in these units.
pub proof fn scaling_keeps_order(a: int, b: int)
    ensures
        a * unit_scale() < b * unit_scale() <==> a < b,
        a * unit_scale() == b * unit_scale() <==> a == b,
{
    doubled_positive(1074);
    let u = unit_scale();
    assert(a < b ==> a * u < b * u) by (nonlinear_arith)
        requires
            u > 0,
    ;
    assert(b < a ==> b * u < a * u) by (nonlinear_arith)
        requires
            u > 0,
    ;
}

/// Where a number stands beside another.
#[derive(Clone, Copy, Debug, PartialEq, Eq, Structural)]
pub enum Side {
    Below,
    Level,
    Above,
}

pub open spec fn side_of(a: int, b: int) -> Side {
    if a < b {
        Side::Below
    } else if a == b {
        Side::Level
    } else {
        Side::Above
    }
}

fn power_of_two(k: u64) -> (r: u64)
    requires
        k <= 52,
    ensures
        r == doubled(k as nat),
        1 <= r <= TWO_52,
{
    proof {
        assert(doubled(52) == 0x10_0000_0000_0000) by {
            reveal_with_fuel(doubled, 53);
        }
        doubled_monotone(k as nat, 52);
    }
    let mut r: u64 = 1;
    let mut i: u64 = 0;
    while i < k
        invariant
            i <= k <= 52,
            r == doubled(i as nat),
            1 <= r <= 0x10_0000_0000_0000,
            doubled(k as nat) <= 0x10_0000_0000_0000,
        decreases k - i,
    {
        proof {
            doubled_monotone((i + 1) as nat, k as nat);
        }
        r = r * 2;
        i = i + 1;
    }
    r
}

fn side_of_wide(a: u128, b: u128) -> (r: Side)
    ensures
        r == side_of(a as int, b as int),
{
    if a < b {
        Side::Below
    } else if a == b {
        Side::Level
    } else {
        Side::Above
    }
}

/// Where a natural number stands beside a magnitude.
fn side_of_magnitude(a: u64, m: u64) -> (r: Side)
    requires
        a <= SIGN,
    ensures
        r == side_of(a * unit_scale(), scaled(m as nat) as int),
{
    let e: u64 = m / TWO_52;
    let fraction: u64 = m % TWO_52;
    let significand: u64 = TWO_52 + fraction;
    let ghost u = unit_scale();
    proof {
        doubled_positive(1074);
    }
    if e >= 1087 {
        proof {
            let d = doubled((e - 1) as nat);
            doubled_monotone(1086, (e - 1) as nat);
            doubled_adds(12, 1074);
            assert(doubled(12) == 4096) by {
                reveal_with_fuel(doubled, 13);
            }
            assert(a * u < significand * d) by (nonlinear_arith)
                requires
                    u > 0,
                    d >= 4096 * u,
                    a <= 0x8000_0000_0000_0000,
                    significand >= 0x10_0000_0000_0000,
            ;
        }
        Side::Below
    } else if e < 1023 {
        proof {
            doubled_adds(53, 1021);
            assert(doubled(53) == 0x20_0000_0000_0000) by {
                reveal_with_fuel(doubled, 54);
            }
            doubled_positive(1021);
            let v = scaled(m as nat);
            if e > 0 {
                let d = doubled((e - 1) as nat);
                doubled_positive((e - 1) as nat);
                doubled_monotone((e - 1) as nat, 1021);
                let top = doubled(1021);
                assert(significand * d < 0x20_0000_0000_0000 * top) by (nonlinear_arith)
                    requires
                        significand < 0x20_0000_0000_0000,
                        0 < d <= top,
                ;
            } else {
                let top = doubled(1021);
                assert(v < 0x20_0000_0000_0000 * top) by (nonlinear_arith)
                    requires
                        v < 0x20_0000_0000_0000,
                        top > 0,
                ;
            }
            assert(v < u);
            if a > 0 {
                assert(a * u >= u) by (nonlinear_arith)
                    requires
                        a >= 1,
                ;
            }
            assert(0 * u == 0);
            if m > 0 {
                scaled_monotone(0, m as nat);
            }
        }
        if a > 0 {
            Side::Above
        } else if m == 0 {
            Side::Level
        } else {
            Side::Below
        }
    } else if e < 1075 {
        let p: u64 = power_of_two(1075 - e);
        let wide: u128 = a as u128;
        proof {
            assert(wide * p <= 0x8000_0000_0000_0000 * 0x10_0000_0000_0000) by (nonlinear_arith)
                requires
                    wide <= 0x8000_0000_0000_0000,
                    p <= 0x10_0000_0000_0000,
            ;
            let d = doubled((e - 1) as nat);
            doubled_positive((e - 1) as nat);
            doubled_adds((1075 - e) as nat, (e - 1) as nat);
            assert(a * (p * d) == (a * p) * d) by (nonlinear_arith);
            products_keep_side((a * p) as int, significand as int, d as int);
        }
        side_of_wide(wide * p as u128, significand as u128)
    } else {
        let p: u64 = power_of_two(e - 1075);
        let wide: u128 = significand as u128;
        proof {
            assert(wide * p <= 0x20_0000_0000_0000 * 0x10_0000_0000_0000) by (nonlinear_arith)
                requires
                    wide <= 0x20_0000_0000_0000,
                    p <= 0x10_0000_0000_0000,
            ;
            doubled_adds((e - 1075) as nat, 1074);
            assert(significand * (p * u) == (significand * p) * u) by (nonlinear_arith);
            products_keep_side(a as int, (significand * p) as int, u as int);
        }
        side_of_wide(a as u128, wide * p as u128)
    }
}

proof fn products_keep_side(a: int, b: int, d: int)
    requires
        d > 0,
    ensures
        side_of(a * d, b * d) == side_of(a, b),
{
    assert(a < b ==> a * d < b * d) by (nonlinear_arith)
        requires
            d > 0,
    ;
    assert(b < a ==> b * d < a * d) by (nonlinear_arith)
        requires
            d > 0,
    ;
}

/// Where an integer stands beside a number, both by their exact values.
pub fn side_of_int(n: i64, f: Float) -> (r: Side)
    ensures
        r == side_of(n * unit_scale(), f.value()),
{
    let m: u64 = f.magnitude();
    proof {
        doubled_positive(1074);
        let u = unit_scale();
        assert(n < 0 ==> n * u < 0) by (nonlinear_arith)
            requires
                u > 0,
        ;
        assert(n > 0 ==> n * u > 0) by (nonlinear_arith)
            requires
                u > 0,
        ;
        assert(0 * u == 0);
        assert((-n) * u == -(n * u)) by (nonlinear_arith);
        if m > 0 {
            scaled_monotone(0, m as nat);
        }
    }
    if f.bits >= SIGN {
        if n > 0 {
            Side::Above
        } else {
            let a: u64 = (-(n as i128)) as u64;
            match side_of_magnitude(a, m) {
                Side::Below => Side::Above,
                Side::Level => Side::Level,
                Side::Above => Side::Below,
            }
        }
    } else if n < 0 {
        Side::Below
    } else {
        side_of_magnitude(n as u64, m)
    }
}

proof fn spacing_is_a_power(m: nat)
    ensures
        spacing(m) >= 1,
        doubled(log2(spacing(m))) == spacing(m),
    decreases m,
{
    if m >= TWO_53 {
        spacing_is_a_power(m / 2);
        let s = spacing(m / 2);
        assert((2 * s) / 2 == s);
        assert(log2(2 * s) == 1 + log2(s));
    } else {
        assert(log2(1) == 0);
        assert(doubled(0) == 1);
    }
}

/// Divided by its spacing, a great number has 53 bits.
proof fn spacing_leaves_53_bits(m: nat)
    requires
        m >= TWO_53,
    ensures
        TWO_52 <= m / spacing(m) < TWO_53,
    decreases m,
{
    let c = m / 2;
    let s = spacing(c);
    spacing_is_a_power(c);
    lemma_div_denominator(m as int, 2, s as int);
    assert((m / 2) / s == m / (2 * s));
    if c >= TWO_53 {
        spacing_leaves_53_bits(c);
    } else {
        assert(c / 1 == c);
    }
}

proof fn scale_up_is_a_power(q: nat)
    requires
        0 < q <= TWO_53,
    ensures
        scale_up(q) >= 1,
        doubled(log2(scale_up(q))) == scale_up(q),
        TWO_52 <= q * scale_up(q) <= TWO_53,
    decreases
            (if q >= TWO_52 {
                0
            } else {
                TWO_52 - q
            }),
{
    if q >= TWO_52 {
        assert(log2(1) == 0);
        assert(doubled(0) == 1);
        assert(q * 1 == q);
    } else {
        scale_up_is_a_power(2 * q);
        let s = scale_up(2 * q);
        assert((2 * s) / 2 == s);
        assert(log2(2 * s) == 1 + log2(s));
        assert(q * (2 * s) == (2 * q) * s) by (nonlinear_arith);
    }
}

/// A pattern put together from an exponent and a significand of 53 bits.
proof fn scaled_of_parts(e: nat, x: nat)
    requires
        e >= 1,
        TWO_52 <= x <= TWO_53,
    ensures
        scaled((e * TWO_52 + (x - TWO_52)) as nat) == x * doubled((e - 1) as nat),
{
    let w = TWO_52 as nat;
    let m = (e * w + (x - w)) as nat;
    let d = doubled((e - 1) as nat);
    if x < TWO_53 {
        assert(m / w == e && m % w == x - w) by (nonlinear_arith)
            requires
                m == e * w + (x - w),
                0 <= x - w < w,
        ;
    } else {
        assert(m / w == e + 1 && m % w == 0) by (nonlinear_arith)
            requires
                m == e * w + (x - w),
                x - w == w,
                w > 0,
        ;
        assert(doubled(e) == 2 * d);
        assert((w + 0) * (2 * d) == x * d) by (nonlinear_arith)
            requires
                x == 2 * w,
        ;
    }
}

proof fn log2_is_small(u: nat, k: nat)
    requires
        doubled(log2(u)) == u,
        u < doubled(k),
    ensures
        log2(u) < k,
{
    if log2(u) >= k {
        doubled_monotone(k, log2(u));
    }
}

proof fn scale_up_is_small(q: nat)
    requires
        0 < q <= TWO_53,
    ensures
        log2(scale_up(q)) <= 53,
{
    let f = scale_up(q);
    scale_up_is_a_power(q);
    assert(f <= TWO_53) by (nonlinear_arith)
        requires
            q * f <= TWO_53,
            q >= 1,
    ;
    assert(doubled(54) == 0x40_0000_0000_0000) by {
        reveal_with_fuel(doubled, 55);
    }
    log2_is_small(f, 54);
}

/// The factors of a significand and of a spacing, as powers of two.
proof fn factors_meet(f: nat, u: nat, e: nat)
    requires
        doubled(log2(f)) == f,
        doubled(log2(u)) == u,
        log2(f) + e == 1074 + log2(u),
    ensures
        f * doubled(e) == u * unit_scale(),
{
    doubled_adds(log2(f), e);
    doubled_adds(log2(u), 1074);
}

proof fn regrouped(q: nat, f: nat, d: nat, u: nat, w: nat)
    requires
        f * d == u * w,
    ensures
        (q * f) * d == q * u * w,
{
    assert((q * f) * d == q * (f * d)) by (nonlinear_arith);
    assert(q * (u * w) == q * u * w) by (nonlinear_arith);
}

/// A multiple of the spacing as a pattern: what it stands for.
proof fn pattern_stands_for(m: nat, q: nat)
    requires
        0 < q <= TWO_53,
    ensures
        ({
            let f = scale_up(q);
            let p = (1075 + log2(spacing(m)) - log2(f)) * TWO_52 + (q * f - TWO_52);
            &&& p >= 0
            &&& scaled(p as nat) == q * spacing(m) * unit_scale()
            &&& log2(f) <= 53
        }),
{
    let f = scale_up(q);
    let u = spacing(m);
    scale_up_is_a_power(q);
    scale_up_is_small(q);
    spacing_is_a_power(m);
    let e = (1074 + log2(u) - log2(f)) as nat;
    scaled_of_parts(e + 1, q * f);
    factors_meet(f, u, e);
    regrouped(q, f, doubled(e), u, unit_scale());
}

/// What the double nearest to a natural number stands for: the nearest multiple
/// of the spacing.
proof fn pattern_is_the_nearest_multiple(m: nat)
    requires
        m <= SIGN,
    ensures
        0 <= pattern_of(m) < INFINITE,
        scaled(pattern_of(m) as nat) == nearest(m) * spacing(m) * unit_scale(),
{
    let u = spacing(m);
    if m == 0 {
        assert(0nat / 1 == 0 && 0nat % 1 == 0);
        assert(nearest(0) == 0);
        assert(scaled(0) == 0);
        assert(0 * u * unit_scale() == 0) by (nonlinear_arith);
    } else {
        let q = nearest(m);
        spacing_is_a_power(m);
        if m >= TWO_53 {
            spacing_leaves_53_bits(m);
            assert(u < 4096) by (nonlinear_arith)
                requires
                    m / u >= 0x10_0000_0000_0000,
                    m <= 0x8000_0000_0000_0000,
                    u >= 1,
            ;
        } else {
            assert(m / 1 == m && m % 1 == 0);
        }
        assert(0 < q <= TWO_53);
        log2_bound(u);
        pattern_stands_for(m, q);
        scale_up_is_a_power(q);
    }
}

/// The pattern after one of 53 bits stands for one spacing more.
proof fn next_pattern(e: nat, x: nat)
    requires
        e >= 1,
        TWO_52 <= x < TWO_53,
    ensures
        scaled((e * TWO_52 + (x - TWO_52)) as nat + 1) == (x + 1) * doubled((e - 1) as nat),
{
    scaled_of_parts(e, x + 1);
    assert((e * TWO_52 + (x - TWO_52)) as nat + 1 == (e * TWO_52 + (x + 1 - TWO_52)) as nat);
}

/// How far apart two numbers are.
pub open spec fn distance(a: int, b: int) -> int {
    if a < b {
        b - a
    } else {
        a - b
    }
}

/// No double is nearer to a natural number.
proof fn nothing_is_nearer(m: nat, f: Float)
    requires
        m <= SIGN,
    ensures
        ({
            let v = (nearest(m) * spacing(m) * unit_scale()) as int;
            let at = (m * unit_scale()) as int;
            &&& distance(v, at) <= distance(f.value(), at)
            &&& 2 * distance(v, at) <= spacing(m) * unit_scale()
        }),
{
    let w = unit_scale();
    let u = spacing(m);
    let at = (m * w) as int;
    doubled_positive(1074);
    spacing_is_a_power(m);
    let q = m / u;
    let r = m % u;
    assert(m == q * u + r && r < u) by (nonlinear_arith)
        requires
            q == m / u,
            r == m % u,
            u >= 1,
    ;
    let low = q * u * w;
    let high = (q + 1) * u * w;
    assert(at == low + r * w && high == low + u * w && low >= 0) by (nonlinear_arith)
        requires
            at == m * w,
            m == q * u + r,
            low == q * u * w,
            high == (q + 1) * u * w,
            q >= 0,
            u >= 1,
            w > 0,
    ;
    assert(0 <= r * w && r * w + (u - r) * w == u * w && (u - r) * w > 0) by (nonlinear_arith)
        requires
            0 <= r < u,
            w > 0,
    ;
    let v = (nearest(m) * u * w) as int;
    assert(2 * r > u ==> 2 * (r * w) > u * w) by (nonlinear_arith)
        requires
            w > 0,
    ;
    assert(2 * r < u ==> 2 * (r * w) < u * w) by (nonlinear_arith)
        requires
            w > 0,
    ;
    assert(2 * r == u ==> 2 * (r * w) == u * w) by (nonlinear_arith);
    assert(v == low || v == high);
    assert(2 * distance(v, at) <= u * w);
    if m < TWO_53 {
        assert(u == 1 && r == 0);
        assert(0 * w == 0);
        assert(v == at);
    } else {
        spacing_leaves_53_bits(m);
        pattern_stands_for(m, q);
        assert(scale_up(q) == 1);
        assert(log2(1) == 0);
        assert(q * 1 == q);
        let e = (1075 + log2(u)) as nat;
        let p = (e * TWO_52 + (q - TWO_52)) as nat;
        assert(scaled(p) == low);
        next_pattern(e, q);
        doubled_adds(log2(u), 1074);
        assert(doubled((e - 1) as nat) == u * w);
        assert((q + 1) * (u * w) == (q + 1) * u * w) by (nonlinear_arith);
        assert(scaled(p + 1) == high);
        let k = f.spec_magnitude() as nat;
        if k < p {
            scaled_monotone(k, p);
        }
        if k > p + 1 {
            scaled_monotone(p + 1, k);
        }
        assert(f.value() <= low || f.value() >= high);
    }
}

/// The double of an integer is the nearest one there is: no double is nearer to
/// the integer, and it is no further away than half the spacing of the doubles
/// around it. Of two that are equally near it is the even multiple of the
/// spacing; an integer of up to 53 bits is met exactly.
pub proof fn the_nearest_float_is_nearest(n: i64, f: Float)
    ensures
        ({
            let r = nearest_float(n);
            let at = n * unit_scale();
            let m = (if n < 0 {
                -n
            } else {
                n as int
            }) as nat;
            &&& r.finite()
            &&& distance(r.value(), at) <= distance(f.value(), at)
            &&& 2 * distance(r.value(), at) <= spacing(m) * unit_scale()
            &&& 2 * distance(r.value(), at) == spacing(m) * unit_scale() ==> nearest(m) % 2 == 0
            &&& m < TWO_53 ==> r.value() == at
        }),
{
    let m = (if n < 0 {
        -n
    } else {
        n as int
    }) as nat;
    let w = unit_scale();
    let u = spacing(m);
    let r = nearest_float(n);
    pattern_is_the_nearest_multiple(m);
    assert(r.spec_magnitude() == pattern_of(m));
    let v = (nearest(m) * u * w) as int;
    let g = f.negated();
    if n < 0 {
        nothing_is_nearer(m, g);
        assert(g.value() == -f.value());
        assert(n * w == -(m * w)) by (nonlinear_arith)
            requires
                n == -m,
        ;
        assert(pattern_of(m) > 0 ==> r.bits >= SIGN);
        assert(r.value() == -v);
    } else {
        nothing_is_nearer(m, f);
        assert(r.value() == v);
    }
    half_way_is_even(m);
}

proof fn half_way_is_even(m: nat)
    ensures
        ({
            let v = (nearest(m) * spacing(m) * unit_scale()) as int;
            let at = (m * unit_scale()) as int;
            &&& 2 * distance(v, at) == spacing(m) * unit_scale() ==> nearest(m) % 2 == 0
            &&& m < TWO_53 ==> v == at
        }),
{
    let w = unit_scale();
    let u = spacing(m);
    doubled_positive(1074);
    spacing_is_a_power(m);
    let q = m / u;
    let r = m % u;
    assert(m == q * u + r && r < u) by (nonlinear_arith)
        requires
            q == m / u,
            r == m % u,
            u >= 1,
    ;
    let n = nearest(m);
    let at = (m * w) as int;
    let v = n * u * w;
    if n == q {
        assert(at - v == r * w) by (nonlinear_arith)
            requires
                at == m * w,
                v == q * u * w,
                m == q * u + r,
        ;
    } else {
        assert(v - at == (u - r) * w) by (nonlinear_arith)
            requires
                at == m * w,
                v == (q + 1) * u * w,
                m == q * u + r,
        ;
    }
    assert(0 <= r * w && 0 <= (u - r) * w) by (nonlinear_arith)
        requires
            0 <= r < u,
            w > 0,
    ;
    assert(2 * (r * w) == u * w ==> 2 * r == u) by (nonlinear_arith)
        requires
            w > 0,
    ;
    assert(2 * ((u - r) * w) == u * w ==> 2 * r == u) by (nonlinear_arith)
        requires
            w > 0,
    ;
    if m < TWO_53 {
        assert(u == 1 && r == 0);
        assert(0 * w == 0);
    }
}

} // verus!
