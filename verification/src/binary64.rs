//! Exact integer evaluation of the few `f64` expressions the application
//! computes: a quotient of two integers scaled to a percentage, and an
//! integer scaled by a constant factor, each truncated back to an integer.
//! Every step is stated as IEEE 754 binary64 round-to-nearest, ties to even,
//! for the magnitudes these expressions reach (positive, normal, below 2^53
//! before scaling); the signs are handled outside the rounding, which IEEE
//! rounding is symmetric under.

use vstd::prelude::*;

verus! {

/// Two to the power `e`.
pub open spec fn p2(e: nat) -> nat
    decreases e,
{
    if e == 0 { 1 } else { 2 * p2((e - 1) as nat) }
}

/// `a / b` rounded to the nearest integer, ties to the even one.
pub open spec fn round_half_even(a: nat, b: nat) -> nat {
    let q = a / b;
    let r = a % b;
    if 2 * r < b {
        q
    } else if 2 * r > b {
        q + 1
    } else if q % 2 == 0 {
        q
    } else {
        q + 1
    }
}

/// `m / 2^s` is the binary64 number nearest to `num / den` (ties to even):
/// `s` puts the scaled quotient in [2^52, 2^53), and `m` is that scaled
/// quotient rounded.
pub open spec fn f64_nearest(num: nat, den: nat, m: nat, s: nat) -> bool {
    &&& p2(52) * den <= num * p2(s)
    &&& num * p2(s) < p2(53) * den
    &&& m == round_half_even(num * p2(s), den)
}

/// The mantissa and scale of the binary64 number nearest to `num / den`.
pub open spec fn f64_quotient(num: nat, den: nat) -> (nat, nat) {
    choose|ms: (nat, nat)| f64_nearest(num, den, ms.0, ms.1)
}

/// The binary64 number nearest to `num / den`, truncated to an integer.
pub open spec fn f64_quotient_trunc(num: nat, den: nat) -> nat {
    let (m, s) = f64_quotient(num, den);
    m / p2(s)
}

/// The integer range of `i32`, as `f64 as i32` saturates into it.
pub open spec fn clamp_i32(v: int) -> int {
    if v > i32::MAX { i32::MAX as int } else if v < i32::MIN { i32::MIN as int } else { v }
}

/// `((n as f64 / d as f64) * 100.0) as i32`, for `n` and `d` in the range
/// of `i32`: a zero denominator gives an infinity (saturated) or, for `0/0`,
/// NaN, which converts to 0.
pub open spec fn percent_of(n: int, d: int) -> int {
    if d == 0 {
        if n == 0 { 0 } else if n > 0 { i32::MAX as int } else { i32::MIN as int }
    } else if n == 0 {
        0
    } else {
        let a = (if n < 0 { -n } else { n }) as nat;
        let b = (if d < 0 { -d } else { d }) as nat;
        let (m1, s1) = f64_quotient(a, b);
        let v = f64_quotient_trunc(100 * m1, p2(s1)) as int;
        clamp_i32(if (n > 0) == (d > 0) { v } else { -v })
    }
}

/// Rounding `x / b` stays within integer bounds that hold of `x / b`.
proof fn lemma_round_bounds(x: nat, b: nat, lo: nat, hi: nat)
    requires
        b > 0,
        b * lo <= x <= b * hi,
    ensures
        lo <= round_half_even(x, b) <= hi,
{
    let q = x / b;
    let r = x % b;
    vstd::arithmetic::div_mod::lemma_fundamental_div_mod(x as int, b as int);
    assert(lo <= q) by (nonlinear_arith)
        requires
            x == b * q + r,
            0 <= r < b,
            b * lo <= x,
    ;
    assert(q <= hi) by (nonlinear_arith)
        requires
            x == b * q + r,
            0 <= r,
            x <= b * hi,
            b > 0,
    ;
    if q == hi {
        assert(r == 0) by (nonlinear_arith)
            requires
                x == b * q + r,
                0 <= r,
                x <= b * hi,
                q == hi,
        ;
    }
}

/// A scale `r >= s` that puts `num * 2^r / den` in [2^52, 2^53), found by
/// doubling.
proof fn lemma_scale_from(num: nat, den: nat, s: nat) -> (r: nat)
    requires
        num > 0,
        den > 0,
        num * p2(s) < p2(52) * den,
    ensures
        p2(52) * den <= num * p2(r),
        num * p2(r) < p2(53) * den,
    decreases p2(52) * den - num * p2(s),
{
    let s1 = s + 1;
    assert(p2(s1) == 2 * p2(s));
    assert(p2(53) == 2 * p2(52));
    assert(num * p2(s1) == 2 * (num * p2(s))) by (nonlinear_arith)
        requires
            p2(s1) == 2 * p2(s),
    ;
    assert(num * p2(s1) < p2(53) * den) by (nonlinear_arith)
        requires
            num * p2(s1) == 2 * (num * p2(s)),
            num * p2(s) < p2(52) * den,
            p2(53) == 2 * p2(52),
    ;
    lemma_p2_pos(s);
    assert(num * p2(s) >= 1) by (nonlinear_arith)
        requires
            num >= 1,
            p2(s) >= 1,
    ;
    if num * p2(s1) >= p2(52) * den {
        s1
    } else {
        lemma_scale_from(num, den, s1)
    }
}

/// For a positive quotient below 2^53, the nearest binary64 number exists
/// and `f64_quotient` names it.
proof fn lemma_quotient_exists(num: nat, den: nat)
    requires
        num > 0,
        den > 0,
        num < p2(53) * den,
    ensures
        f64_nearest(num, den, f64_quotient(num, den).0, f64_quotient(num, den).1),
{
    assert(p2(0) == 1);
    let s: nat = if num >= p2(52) * den { 0 } else { lemma_scale_from(num, den, 0) };
    let m = round_half_even(num * p2(s), den);
    lemma_quotient_is(num, den, m, s);
}

/// The `f64` percentage of a share of a positive whole lies between 0 and
/// 100.
pub proof fn lemma_percent_range(n: int, d: int)
    requires
        0 <= n <= d,
        d > 0,
    ensures
        0 <= percent_of(n, d) <= 100,
{
    if n > 0 {
        let a = n as nat;
        let b = d as nat;
        lemma_p2_values();
        assert(a < p2(53) * b) by (nonlinear_arith)
            requires
                a <= b,
                b >= 1,
                p2(53) == 0x20_0000_0000_0000,
        ;
        lemma_quotient_exists(a, b);
        let (m1, s1) = f64_quotient(a, b);
        lemma_p2_pos(s1);
        let x1 = a * p2(s1);
        assert(b * p2(52) <= x1 <= b * p2(s1)) by (nonlinear_arith)
            requires
                p2(52) * b <= x1,
                x1 == a * p2(s1),
                a <= b,
        ;
        lemma_round_bounds(x1, b, p2(52), p2(s1));
        let num2 = 100 * m1;
        let den2 = p2(s1);
        assert(0 < num2 < p2(53) * den2) by (nonlinear_arith)
            requires
                num2 == 100 * m1,
                p2(52) <= m1 <= den2,
                p2(52) == 0x10_0000_0000_0000,
                p2(53) == 0x20_0000_0000_0000,
        ;
        lemma_quotient_exists(num2, den2);
        let (m2, s2) = f64_quotient(num2, den2);
        lemma_p2_pos(s2);
        let x2 = num2 * p2(s2);
        assert(den2 * 0 <= x2 <= den2 * (100 * p2(s2))) by (nonlinear_arith)
            requires
                x2 == num2 * p2(s2),
                num2 == 100 * m1,
                m1 <= den2,
        ;
        lemma_round_bounds(x2, den2, 0, 100 * p2(s2));
        let v = m2 / p2(s2);
        assert(v <= 100) by {
            vstd::arithmetic::div_mod::lemma_div_is_ordered(m2 as int, (100 * p2(s2)) as int, p2(s2) as int);
            vstd::arithmetic::div_mod::lemma_div_multiples_vanish(100, p2(s2) as int);
        }
    }
}

/// Integer division keeps the order of two quotients.
proof fn lemma_div_mono(x1: nat, d1: nat, x2: nat, d2: nat)
    requires
        d1 > 0,
        d2 > 0,
        x1 * d2 <= x2 * d1,
    ensures
        x1 / d1 <= x2 / d2,
{
    let q1 = x1 / d1;
    let r1 = x1 % d1;
    let q2 = x2 / d2;
    let r2 = x2 % d2;
    vstd::arithmetic::div_mod::lemma_fundamental_div_mod(x1 as int, d1 as int);
    vstd::arithmetic::div_mod::lemma_fundamental_div_mod(x2 as int, d2 as int);
    assert(q1 * d1 <= x1);
    assert((q1 * d1) * d2 <= x1 * d2) by (nonlinear_arith)
        requires
            q1 * d1 <= x1,
    ;
    assert(d1 * (q1 * d2) <= d1 * x2) by (nonlinear_arith)
        requires
            (q1 * d1) * d2 <= x1 * d2,
            x1 * d2 <= x2 * d1,
    ;
    assert(q1 * d2 <= x2) by (nonlinear_arith)
        requires
            d1 * (q1 * d2) <= d1 * x2,
            d1 > 0,
    ;
    assert(q1 <= q2) by (nonlinear_arith)
        requires
            q1 * d2 <= x2,
            x2 == d2 * q2 + r2,
            r2 < d2,
            d2 > 0,
    ;
}

/// Rounding to the nearest integer (ties to even) keeps the order of two
/// quotients.
proof fn lemma_round_mono(x1: nat, d1: nat, x2: nat, d2: nat)
    requires
        d1 > 0,
        d2 > 0,
        x1 * d2 <= x2 * d1,
    ensures
        round_half_even(x1, d1) <= round_half_even(x2, d2),
{
    lemma_div_mono(x1, d1, x2, d2);
    let q1 = x1 / d1;
    let r1 = x1 % d1;
    let q2 = x2 / d2;
    let r2 = x2 % d2;
    vstd::arithmetic::div_mod::lemma_fundamental_div_mod(x1 as int, d1 as int);
    vstd::arithmetic::div_mod::lemma_fundamental_div_mod(x2 as int, d2 as int);
    if q1 == q2 {
        assert(d1 * q1 * d2 == d2 * q2 * d1) by (nonlinear_arith)
            requires
                q1 == q2,
        ;
        assert(x1 * d2 == d1 * q1 * d2 + r1 * d2) by (nonlinear_arith)
            requires
                x1 == d1 * q1 + r1,
        ;
        assert(x2 * d1 == d2 * q2 * d1 + r2 * d1) by (nonlinear_arith)
            requires
                x2 == d2 * q2 + r2,
        ;
        assert(r1 * d2 <= r2 * d1);
        if 2 * r1 > d1 {
            assert(2 * r2 > d2) by (nonlinear_arith)
                requires
                    r1 * d2 <= r2 * d1,
                    2 * r1 > d1,
                    d1 > 0,
                    d2 > 0,
            ;
        }
        if 2 * r1 == d1 {
            assert(2 * r2 >= d2) by (nonlinear_arith)
                requires
                    r1 * d2 <= r2 * d1,
                    2 * r1 == d1,
                    d1 > 0,
                    d2 > 0,
            ;
        }
    }
}

/// The nearest binary64 numbers to two ordered quotients are in the same
/// order: `mA / 2^sA <= mB / 2^sB`.
proof fn lemma_quotient_mono(num1: nat, den1: nat, num2: nat, den2: nat)
    requires
        num1 > 0,
        den1 > 0,
        num2 > 0,
        den2 > 0,
        num1 < p2(53) * den1,
        num2 < p2(53) * den2,
        num1 * den2 <= num2 * den1,
    ensures
        f64_quotient(num1, den1).0 * p2(f64_quotient(num2, den2).1)
            <= f64_quotient(num2, den2).0 * p2(f64_quotient(num1, den1).1),
{
    lemma_quotient_exists(num1, den1);
    lemma_quotient_exists(num2, den2);
    lemma_p2_values();
    let (ma, sa) = f64_quotient(num1, den1);
    let (mb, sb) = f64_quotient(num2, den2);
    let pa = p2(sa);
    let pb = p2(sb);
    let lo = p2(52);
    let hi = p2(53);
    lemma_p2_pos(sa);
    lemma_p2_pos(sb);
    let xa = num1 * pa;
    let xb = num2 * pb;
    lemma_round_bounds(xa, den1, lo, hi);
    lemma_round_bounds(xb, den2, lo, hi);
    if sa == sb {
        assert(xa * den2 <= xb * den1) by (nonlinear_arith)
            requires
                xa == num1 * pa,
                xb == num2 * pb,
                pa == pb,
                num1 * den2 <= num2 * den1,
                pa >= 1,
        ;
        lemma_round_mono(xa, den1, xb, den2);
        assert(ma * pb <= mb * pa) by (nonlinear_arith)
            requires
                ma <= mb,
                pa == pb,
                pa >= 1,
        ;
    } else if sa < sb {
        lemma_p2_double(sa, sb);
        let k = num2 * den1;
        assert(lo * den1 * den2 <= num1 * pa * den2) by (nonlinear_arith)
            requires
                lo * den1 <= num1 * pa,
                den2 > 0,
        ;
        assert(num1 * pa * den2 <= k * pa) by (nonlinear_arith)
            requires
                num1 * den2 <= num2 * den1,
                k == num2 * den1,
                pa >= 1,
        ;
        assert(num2 * pb * den1 < hi * den2 * den1) by (nonlinear_arith)
            requires
                num2 * pb < hi * den2,
                den1 > 0,
        ;
        assert(k * pb >= k * (2 * pa)) by (nonlinear_arith)
            requires
                pb >= 2 * pa,
                k >= 0,
        ;
        assert(false) by (nonlinear_arith)
            requires
                lo * den1 * den2 <= num1 * pa * den2,
                num1 * pa * den2 <= k * pa,
                num2 * pb * den1 < hi * den2 * den1,
                k == num2 * den1,
                k * pb >= k * (2 * pa),
                hi == 2 * lo,
        ;
    } else {
        lemma_p2_double(sb, sa);
        assert(ma * pb <= mb * pa) by (nonlinear_arith)
            requires
                ma <= hi,
                lo <= mb,
                hi == 2 * lo,
                pa >= 2 * pb,
                pb >= 1,
        ;
    }
}

/// The `f64` percentage of a share of a positive whole does not fall when
/// the share grows.
pub proof fn lemma_percent_mono(n1: int, n2: int, d: int)
    requires
        0 <= n1 <= n2 <= d,
        d > 0,
    ensures
        percent_of(n1, d) <= percent_of(n2, d),
{
    lemma_percent_range(n1, d);
    lemma_percent_range(n2, d);
    if n1 > 0 {
        let a1 = n1 as nat;
        let a2 = n2 as nat;
        let b = d as nat;
        lemma_p2_values();
        assert(a1 < p2(53) * b && a2 < p2(53) * b) by (nonlinear_arith)
            requires
                a1 <= b,
                a2 <= b,
                b >= 1,
                p2(53) == 0x20_0000_0000_0000,
        ;
        assert(a1 * b <= a2 * b) by (nonlinear_arith)
            requires
                a1 <= a2,
        ;
        lemma_quotient_exists(a1, b);
        lemma_quotient_exists(a2, b);
        lemma_quotient_mono(a1, b, a2, b);
        let (m1, s1) = f64_quotient(a1, b);
        let (m2, s2) = f64_quotient(a2, b);
        lemma_p2_pos(s1);
        lemma_p2_pos(s2);
        assert(b * p2(52) <= a1 * p2(s1) <= b * p2(s1)) by (nonlinear_arith)
            requires
                p2(52) * b <= a1 * p2(s1),
                a1 <= b,
        ;
        assert(b * p2(52) <= a2 * p2(s2) <= b * p2(s2)) by (nonlinear_arith)
            requires
                p2(52) * b <= a2 * p2(s2),
                a2 <= b,
        ;
        lemma_round_bounds(a1 * p2(s1), b, p2(52), p2(s1));
        lemma_round_bounds(a2 * p2(s2), b, p2(52), p2(s2));
        assert(0 < 100 * m1 < p2(53) * p2(s1)) by (nonlinear_arith)
            requires
                p2(52) <= m1 <= p2(s1),
                p2(52) == 0x10_0000_0000_0000,
                p2(53) == 0x20_0000_0000_0000,
        ;
        assert(0 < 100 * m2 < p2(53) * p2(s2)) by (nonlinear_arith)
            requires
                p2(52) <= m2 <= p2(s2),
                p2(52) == 0x10_0000_0000_0000,
                p2(53) == 0x20_0000_0000_0000,
        ;
        assert((100 * m1) * p2(s2) <= (100 * m2) * p2(s1)) by (nonlinear_arith)
            requires
                m1 * p2(s2) <= m2 * p2(s1),
        ;
        lemma_quotient_mono(100 * m1, p2(s1), 100 * m2, p2(s2));
        lemma_quotient_exists(100 * m1, p2(s1));
        lemma_quotient_exists(100 * m2, p2(s2));
        let (ma, sa) = f64_quotient(100 * m1, p2(s1));
        let (mb, sb) = f64_quotient(100 * m2, p2(s2));
        lemma_p2_pos(sa);
        lemma_p2_pos(sb);
        lemma_div_mono(ma, p2(sa), mb, p2(sb));
    }
}

/// The binary64 constant `0.45`, as mantissa / 2^54.
pub open spec fn c045_mant() -> nat { 8106479329266893 }

/// The binary64 constant `0.65`, as mantissa / 2^53.
pub open spec fn c065_mant() -> nat { 5854679515581645 }

/// `(x as f64 * c) as i64` for a positive binary64 constant `c = mant / 2^exp`
/// with a 53-bit mantissa below 1, for `x` in the range of `i32`.
pub open spec fn scale_trunc(x: int, mant: nat, exp: nat) -> int {
    if x == 0 {
        0
    } else {
        let a = (if x < 0 { -x } else { x }) as nat;
        let v = f64_quotient_trunc(a * mant, p2(exp)) as int;
        if x > 0 { v } else { -v }
    }
}

/// The binary64 constants in their integer form.
pub proof fn lemma_constants()
    ensures
        c045_mant() == 8106479329266893,
        c065_mant() == 5854679515581645,
        p2(52) <= 8106479329266893 < p2(53),
        p2(52) <= 5854679515581645 < p2(53),
{
    lemma_p2_values();
}

/// The powers of two the computations use.
proof fn lemma_p2_values()
    ensures
        p2(52) == 0x10_0000_0000_0000,
        p2(53) == 0x20_0000_0000_0000,
        p2(54) == 0x40_0000_0000_0000,
        p2(84) == 0x10_0000_0000_0000_0000_0000,
{
    reveal_with_fuel(p2, 85);
}

/// A power of two is positive.
proof fn lemma_p2_pos(e: nat)
    ensures
        p2(e) >= 1,
    decreases e,
{
    if e > 0 {
        lemma_p2_pos((e - 1) as nat);
    }
}

/// `2^(a+b) = 2^a * 2^b`.
proof fn lemma_p2_adds(a: nat, b: nat)
    ensures
        p2(a + b) == p2(a) * p2(b),
    decreases b,
{
    if b > 0 {
        let b1 = (b - 1) as nat;
        lemma_p2_adds(a, b1);
        assert(a + b1 + 1 == a + b);
        assert(p2(a + b) == 2 * p2(a + b1));
        assert(p2(b) == 2 * p2(b1));
        assert(p2(a) * (2 * p2(b1)) == 2 * (p2(a) * p2(b1))) by (nonlinear_arith);
        assert(p2(a) * p2(b) == p2(a) * (2 * p2(b1)));
        assert(p2(a + b) == p2(a) * p2(b));
    } else {
        assert(a + b == a);
        assert(p2(b) == 1);
        assert(p2(a) * p2(b) == p2(a));
    }
}

/// A larger exponent at least doubles the power.
proof fn lemma_p2_double(a: nat, b: nat)
    requires
        a < b,
    ensures
        p2(b) >= 2 * p2(a),
    decreases b,
{
    lemma_p2_pos(a);
    if b > a + 1 {
        lemma_p2_double(a, (b - 1) as nat);
    }
}

/// The nearest binary64 number to a quotient is unique.
pub proof fn lemma_f64_nearest_unique(num: nat, den: nat, m1: nat, s1: nat, m2: nat, s2: nat)
    requires
        f64_nearest(num, den, m1, s1),
        f64_nearest(num, den, m2, s2),
    ensures
        m1 == m2,
        s1 == s2,
{
    assert(p2(53) == 2 * p2(52));
    if s1 != s2 {
        let (lo, hi) = if s1 < s2 { (s1, s2) } else { (s2, s1) };
        lemma_p2_double(lo, hi);
        let x = num * p2(lo);
        let y = num * p2(hi);
        assert(y >= 2 * x) by (nonlinear_arith)
            requires
                x == num * p2(lo),
                y == num * p2(hi),
                p2(hi) >= 2 * p2(lo),
        ;
        assert(false) by (nonlinear_arith)
            requires
                y >= 2 * x,
                p2(52) * den <= x,
                y < p2(53) * den,
                p2(53) == 2 * p2(52),
        ;
    }
}

/// `f64_quotient` names the nearest binary64 number when it exists.
proof fn lemma_quotient_is(num: nat, den: nat, m: nat, s: nat)
    requires
        f64_nearest(num, den, m, s),
    ensures
        f64_quotient(num, den) == (m, s),
{
    let ms = f64_quotient(num, den);
    assert(f64_nearest(num, den, m, s));
    assert(exists|x: (nat, nat)| f64_nearest(num, den, x.0, x.1)) by {
        assert(f64_nearest(num, den, (m, s).0, (m, s).1));
    }
    lemma_f64_nearest_unique(num, den, m, s, ms.0, ms.1);
}

/// Rounding a quotient does not change when both sides are scaled alike.
proof fn lemma_round_scaled(a: nat, b: nat, c: nat)
    requires
        b > 0,
        c > 0,
    ensures
        round_half_even(a * c, b * c) == round_half_even(a, b),
{
    let q = a / b;
    let r = a % b;
    assert(a == b * q + r && r < b) by {
        vstd::arithmetic::div_mod::lemma_fundamental_div_mod(a as int, b as int);
    }
    assert(a * c == q * (b * c) + r * c && r * c < b * c) by (nonlinear_arith)
        requires
            a == b * q + r,
            r < b,
            c > 0,
    ;
    vstd::arithmetic::div_mod::lemma_fundamental_div_mod_converse(
        (a * c) as int,
        (b * c) as int,
        q as int,
        (r * c) as int,
    );
    assert((2 * (r * c) < b * c) == (2 * r < b)) by (nonlinear_arith)
        requires
            c > 0,
    ;
    assert((2 * (r * c) > b * c) == (2 * r > b)) by (nonlinear_arith)
        requires
            c > 0,
    ;
}

/// The binary64 number nearest to `num / den`, as `(m, s)` with value
/// `m / 2^s`, for a small numerator and denominator.
pub fn nearest_quotient(num: u64, den: u64) -> (r: (u64, u32))
    requires
        0 < num <= 0x1_0000_0000,
        0 < den <= 0x1_0000_0000,
    ensures
        f64_nearest(num as nat, den as nat, r.0 as nat, r.1 as nat),
        (r.0 as nat, r.1 as nat) == f64_quotient(num as nat, den as nat),
        p2(52) <= r.0 <= p2(53),
        r.1 <= 86,
{
    proof {
        lemma_p2_values();
    }
    let d: u128 = den as u128;
    let lo: u128 = d * 0x10_0000_0000_0000;
    let hi: u128 = d * 0x20_0000_0000_0000;
    let mut t: u128 = num as u128;
    let mut s: u32 = 0;
    assert(p2(0) == 1);
    assert(lo <= 0x10_0000_0000_0000_0000_0000 && hi == 2 * lo && t < hi) by (nonlinear_arith)
        requires
            lo == 0x10_0000_0000_0000 * d,
            hi == 0x20_0000_0000_0000 * d,
            0 < d <= 0x1_0000_0000,
            t <= 0x1_0000_0000,
    ;
    while t < lo
        invariant
            d == den,
            0 < d <= 0x1_0000_0000,
            lo == p2(52) * d,
            hi == p2(53) * d,
            t == num * p2(s as nat),
            0 < t < hi,
            hi == 2 * lo,
            lo <= 0x10_0000_0000_0000_0000_0000,
            p2(84) == 0x10_0000_0000_0000_0000_0000,
            0 < num,
            p2(s as nat) <= t,
            s <= 84,
        decreases 84 - s,
    {
        proof {
            if s == 84 {
                assert(p2(84) <= num * p2(84)) by (nonlinear_arith)
                    requires
                        num >= 1,
                ;
            }
            assert(p2((s + 1) as nat) == 2 * p2(s as nat));
            assert(num * p2((s + 1) as nat) == 2 * (num * p2(s as nat))) by (nonlinear_arith)
                requires
                    p2((s + 1) as nat) == 2 * p2(s as nat),
            ;
        }
        t = t * 2;
        s = s + 1;
    }
    let q = t / d;
    let r = t % d;
    proof {
        vstd::arithmetic::div_mod::lemma_fundamental_div_mod(t as int, d as int);
        assert(p2(52) <= q < p2(53)) by (nonlinear_arith)
            requires
                t == d * q + r,
                0 <= r < d,
                p2(52) * d <= t < p2(53) * d,
        ;
    }
    let m: u128 = if 2 * r < d {
        q
    } else if 2 * r > d {
        q + 1
    } else if q % 2 == 0 {
        q
    } else {
        q + 1
    };
    proof {
        lemma_quotient_is(num as nat, den as nat, m as nat, s as nat);
    }
    (m as u64, s)
}


/// The binary64 number nearest to `num / 2^e`, as `(m, s)` with value
/// `m / 2^s`, for a numerator of at least 53 bits.
pub fn nearest_over_p2(num: u128, e: u32) -> (r: (u128, u32))
    requires
        p2(52) <= num < 0x1_0000_0000_0000_0000_0000_0000,
        num < p2(53) * p2(e as nat),
    ensures
        f64_nearest(num as nat, p2(e as nat), r.0 as nat, r.1 as nat),
        (r.0 as nat, r.1 as nat) == f64_quotient(num as nat, p2(e as nat)),
        p2(52) <= r.0 <= p2(53),
        r.1 <= e,
{
    proof {
        lemma_p2_values();
        assert(p2(0) == 1);
    }
    let mut t: u128 = num;
    let mut pk: u128 = 1;
    let mut k: u32 = 0;
    while t >= 0x20_0000_0000_0000
        invariant
            p2(52) == 0x10_0000_0000_0000,
            p2(53) == 0x20_0000_0000_0000,
            num < p2(53) * p2(e as nat),
            num < 0x1_0000_0000_0000_0000_0000_0000,
            pk == p2(k as nat),
            t == num / pk,
            t >= p2(52),
            1 <= pk <= num,
            k <= e,
        decreases t,
    {
        proof {
            vstd::arithmetic::div_mod::lemma_fundamental_div_mod(num as int, pk as int);
            if k == e {
                assert(false) by (nonlinear_arith)
                    requires
                        t >= p2(53),
                        num >= pk * t,
                        pk == p2(e as nat),
                        num < p2(53) * p2(e as nat),
                ;
            }
            vstd::arithmetic::div_mod::lemma_div_denominator(num as int, pk as int, 2);
            assert(p2((k + 1) as nat) == 2 * p2(k as nat));
            assert(pk * 2 <= num) by (nonlinear_arith)
                requires
                    num >= pk * t,
                    t >= 2,
                    pk >= 1,
            ;
        }
        t = t / 2;
        pk = pk * 2;
        k = k + 1;
    }
    proof {
        vstd::arithmetic::div_mod::lemma_fundamental_div_mod(num as int, pk as int);
        assert(t * pk == pk * t) by (nonlinear_arith);
        assert(t * pk <= num);
    }
    let r = num - t * pk;
    assert(r == num % pk);
    let m: u128 = if 2 * r < pk {
        t
    } else if 2 * r > pk {
        t + 1
    } else if t % 2 == 0 {
        t
    } else {
        t + 1
    };
    let s: u32 = e - k;
    proof {
        let ke = k as nat;
        let sn = s as nat;
        lemma_p2_adds(ke, sn);
        assert(ke + sn == e as nat);
        let pe = p2(e as nat);
        let ps = p2(sn);
        assert(pe == pk * ps);
        lemma_p2_pos(sn);
        assert(m == round_half_even(num as nat, pk as nat));
        lemma_round_scaled(num as nat, pk as nat, ps);
        assert(p2(52) * pe <= num * ps && num * ps < p2(53) * pe) by (nonlinear_arith)
            requires
                pe == pk * ps,
                ps >= 1,
                num == pk * t + r,
                r < pk,
                p2(52) <= t < p2(53),
        ;
        lemma_quotient_is(num as nat, pe, m as nat, sn);
    }
    (m, s)
}

/// `m / 2^s`, rounded down.
pub fn div_p2(m: u128, s: u32) -> (r: u128)
    ensures
        r == (m as nat) / p2(s as nat),
{
    let mut t: u128 = m;
    let mut i: u32 = 0;
    proof {
        assert(p2(0) == 1);
    }
    while i < s
        invariant
            i <= s,
            t == (m as nat) / p2(i as nat),
        decreases s - i,
    {
        proof {
            lemma_p2_pos(i as nat);
            vstd::arithmetic::div_mod::lemma_div_denominator(m as int, p2(i as nat) as int, 2);
            assert(p2((i + 1) as nat) == p2(i as nat) * 2);
        }
        t = t / 2;
        i = i + 1;
    }
    t
}

/// `((n as f64 / d as f64) * 100.0) as i32`, computed exactly.
pub fn percent(n: i32, d: i32) -> (r: i32)
    ensures
        r == percent_of(n as int, d as int),
{
    if d == 0 {
        return if n == 0 { 0 } else if n > 0 { i32::MAX } else { i32::MIN };
    }
    if n == 0 {
        return 0;
    }
    let a: u64 = if n < 0 { (-(n as i64)) as u64 } else { n as u64 };
    let b: u64 = if d < 0 { (-(d as i64)) as u64 } else { d as u64 };
    let (m1, s1) = nearest_quotient(a, b);
    proof {
        lemma_p2_values();
        lemma_p2_adds(53, 21);
        lemma_p2_pos(s1 as nat);
        let ps1 = p2(s1 as nat);
        assert(ps1 >= 0x20_0000) by (nonlinear_arith)
            requires
                0x10_0000_0000_0000 * b <= a * ps1,
                1 <= b,
                a <= 0x8000_0000,
        ;
        if s1 < 21 {
            lemma_p2_double(s1 as nat, 21);
            reveal_with_fuel(p2, 22);
        }
        assert(100 * m1 < p2(53) * ps1) by (nonlinear_arith)
            requires
                m1 <= 0x20_0000_0000_0000,
                ps1 >= 0x20_0000,
                p2(53) == 0x20_0000_0000_0000,
        ;
    }
    let num2: u128 = 100 * (m1 as u128);
    let (m2, s2) = nearest_over_p2(num2, s1);
    let v = div_p2(m2, s2);
    proof {
        assert(v <= m2) by {
            lemma_p2_pos(s2 as nat);
            vstd::arithmetic::div_mod::lemma_div_is_ordered_by_denominator(m2 as int, 1, p2(s2 as nat) as int);
        }
    }
    let vi: i64 = v as i64;
    let signed: i64 = if (n > 0) == (d > 0) { vi } else { -vi };
    if signed > i32::MAX as i64 {
        i32::MAX
    } else if signed < i32::MIN as i64 {
        i32::MIN
    } else {
        signed as i32
    }
}

/// `(x as f64 * c) as i64` for the binary64 constant `c = mant / 2^exp`.
pub fn scale(x: i32, mant: u64, exp: u32) -> (r: i64)
    requires
        p2(52) <= mant < p2(53),
        53 <= exp <= 60,
    ensures
        r == scale_trunc(x as int, mant as nat, exp as nat),
        if x >= 0 { 0 <= r <= x } else { x <= r <= 0 },
{
    if x == 0 {
        return 0;
    }
    let a: u128 = if x < 0 { (-(x as i64)) as u128 } else { x as u128 };
    proof {
        lemma_p2_values();
        assert(a * mant < 0x1_0000_0000_0000_0000_0000_0000) by (nonlinear_arith)
            requires
                1 <= a <= 0x8000_0000,
                mant < 0x20_0000_0000_0000,
        ;
    }
    let num: u128 = a * (mant as u128);
    proof {
        lemma_p2_adds(53, 31);
        lemma_p2_adds(31, (exp - 31) as nat);
        lemma_p2_pos((exp - 31) as nat);
        reveal_with_fuel(p2, 32);
        assert(p2(31) == 0x8000_0000);
        assert(p2(52) <= num < 0x1_0000_0000_0000_0000_0000_0000 && num < p2(53) * p2(exp as nat)) by (nonlinear_arith)
            requires
                num == a * mant,
                1 <= a <= 0x8000_0000,
                p2(52) <= mant < p2(53),
                p2(53) == 0x20_0000_0000_0000,
                p2(exp as nat) == p2(31) * p2((exp - 31) as nat),
                p2((exp - 31) as nat) >= 1,
                p2(31) == 0x8000_0000,
        ;
    }
    let (m, s) = nearest_over_p2(num, exp);
    let v = div_p2(m, s);
    proof {
        lemma_p2_pos(s as nat);
        vstd::arithmetic::div_mod::lemma_div_is_ordered_by_denominator(m as int, 1, p2(s as nat) as int);
        let pw = p2(s as nat);
        let den = p2(exp as nat);
        lemma_p2_adds(53, (exp - 53) as nat);
        lemma_p2_pos((exp - 53) as nat);
        assert(den >= p2(53)) by (nonlinear_arith)
            requires
                den == p2(53) * p2((exp - 53) as nat),
                p2((exp - 53) as nat) >= 1,
                p2(53) >= 1,
        ;
        let x0: nat = (num as nat) * pw;
        let q: nat = x0 / den;
        let mm: nat = m as nat;
        let vv: nat = v as nat;
        let aa: nat = a as nat;
        vstd::arithmetic::div_mod::lemma_fundamental_div_mod(x0 as int, den as int);
        assert(mm <= q + 1);
        assert(mm * den <= x0 + den) by (nonlinear_arith)
            requires
                mm <= q + 1,
                x0 == den * q + x0 % den,
                x0 % den >= 0,
                den > 0,
        ;
        vstd::arithmetic::div_mod::lemma_fundamental_div_mod(mm as int, pw as int);
        assert(vv * pw <= mm) by (nonlinear_arith)
            requires
                vv == mm / pw,
                mm == pw * (mm / pw) + mm % pw,
                mm % pw >= 0,
        ;
        let nn: nat = num as nat;
        assert(nn < aa * den) by (nonlinear_arith)
            requires
                nn == aa * mant,
                mant < p2(53),
                p2(53) <= den,
                aa >= 1,
        ;
        assert(x0 < aa * den * pw) by (nonlinear_arith)
            requires
                x0 == nn * pw,
                nn < aa * den,
                pw >= 1,
        ;
        assert((aa * pw + 1) * den == aa * den * pw + den) by (nonlinear_arith);
        assert(mm < aa * pw + 1) by (nonlinear_arith)
            requires
                mm * den < (aa * pw + 1) * den,
                den > 0,
        ;
        assert(vv <= aa) by (nonlinear_arith)
            requires
                vv * pw <= mm,
                mm <= aa * pw,
                pw >= 1,
        ;
    }
    let vi: i64 = v as i64;
    if x > 0 { vi } else { -vi }
}

} // verus!
