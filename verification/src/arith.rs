//! Rounded quotients and square roots of whole numbers.

use vstd::arithmetic::div_mod::lemma_fundamental_div_mod_converse;
use vstd::prelude::*;

verus! {

/// The largest magnitude of a rounded quotient that `mul_div_round` hands out.
pub const QUOTIENT_MAX: u64 = u64::MAX;

/// The integer nearest to `n / d`, the one further from zero where two are
/// equally near. The divisor is not zero.
pub open spec fn round_div(n: int, d: int) -> int
    recommends
        d != 0,
{
    let a = if d < 0 { -n } else { n };
    let b = if d < 0 { -d } else { d };
    if a >= 0 {
        (2 * a + b) / (2 * b)
    } else {
        -((b - 2 * a) / (2 * b))
    }
}

/// Whether `s` is the integer part of the square root of `n`.
pub open spec fn is_floor_sqrt(n: int, s: int) -> bool {
    0 <= s && s * s <= n < (s + 1) * (s + 1)
}

/// Rounding a quotient of magnitudes: the floor of the quotient, and one more
/// where the remainder is at least half the divisor.
pub proof fn lemma_round_magnitude(m: int, d: int)
    requires
        0 <= m,
        0 < d,
    ensures
        round_div(m, d) == m / d + if 2 * (m % d) >= d { 1int } else { 0int },
        round_div(-m, d) == -round_div(m, d),
        round_div(m, -d) == -round_div(m, d),
        round_div(-m, -d) == round_div(m, d),
{
    let q = m / d;
    let r = m % d;
    assert(m == q * d + r && 0 <= r < d) by (nonlinear_arith)
        requires
            q == m / d,
            r == m % d,
            0 < d,
    ;
    if 2 * r >= d {
        assert(2 * m + d == (q + 1) * (2 * d) + (2 * r - d)) by (nonlinear_arith)
            requires
                m == q * d + r,
        ;
        lemma_fundamental_div_mod_converse(2 * m + d, 2 * d, q + 1, 2 * r - d);
    } else {
        assert(2 * m + d == q * (2 * d) + (2 * r + d)) by (nonlinear_arith)
            requires
                m == q * d + r,
        ;
        lemma_fundamental_div_mod_converse(2 * m + d, 2 * d, q, 2 * r + d);
    }
    if m == 0 {
        assert(d / (2 * d) == 0) by {
            lemma_fundamental_div_mod_converse(d, 2 * d, 0, d);
        }
    }
}

/// A quotient grows with its dividend.
pub proof fn lemma_round_monotone(m: int, n: int, d: int)
    requires
        0 <= m <= n,
        0 < d,
    ensures
        0 <= round_div(m, d) <= round_div(n, d),
{
    vstd::arithmetic::div_mod::lemma_div_is_ordered(2 * m + d, 2 * n + d, 2 * d);
    vstd::arithmetic::div_mod::lemma_div_is_ordered(0, 2 * m + d, 2 * d);
}

/// A quotient grows with its dividend, whatever the sign of the dividend.
pub proof fn lemma_round_order(m: int, n: int, d: int)
    requires
        m <= n,
        0 < d,
    ensures
        round_div(m, d) <= round_div(n, d),
{
    if 0 <= m {
        lemma_round_monotone(m, n, d);
    } else if n < 0 {
        lemma_round_monotone(-n, -m, d);
        lemma_round_magnitude(-n, d);
        lemma_round_magnitude(-m, d);
    } else {
        lemma_round_monotone(0, n, d);
        lemma_round_monotone(0, -m, d);
        lemma_round_magnitude(-m, d);
    }
}

/// Rounding moves a quotient by half a unit at most: the rounded quotient,
/// multiplied back, is off the dividend by no more than half the divisor.
pub proof fn lemma_round_error(n: int, d: int)
    requires
        d != 0,
    ensures
        -d <= 2 * (round_div(n, d) * d - n) <= d || d <= 2 * (round_div(n, d) * d - n) <= -d,
{
    let b = if d < 0 { -d } else { d };
    let a = if d < 0 { -n } else { n };
    let m = if a < 0 { -a } else { a };
    lemma_round_magnitude(m, b);
    let q = m / b;
    let r = m % b;
    assert(m == q * b + r && 0 <= r < b) by (nonlinear_arith)
        requires
            q == m / b,
            r == m % b,
            0 < b,
    ;
    let big = round_div(m, b);
    assert(-b <= 2 * (big * b - m) <= b) by (nonlinear_arith)
        requires
            m == q * b + r,
            0 <= r < b,
            big == q + if 2 * r >= b { 1int } else { 0int },
    ;
    let rounded = round_div(n, d);
    assert(rounded == big || rounded == -big);
    assert(rounded == big <==> (a >= 0 || big == 0));
    assert(rounded * d - n == big * b - m || rounded * d - n == -(big * b - m))
        by (nonlinear_arith)
        requires
            b == if d < 0 { -d } else { d },
            a == if d < 0 { -n } else { n },
            m == if a < 0 { -a } else { a },
            rounded == big <==> (a >= 0 || big == 0),
            rounded == big || rounded == -big,
    ;
}

/// A whole multiple of the divisor is divided without rounding.
pub proof fn lemma_round_exact(k: int, d: int)
    requires
        d != 0,
    ensures
        round_div(k * d, d) == k,
{
    let b = if d < 0 { -d } else { d };
    let m = if k < 0 { -k } else { k };
    assert((m * b) / b == m && (m * b) % b == 0) by {
        lemma_fundamental_div_mod_converse(m * b, b, m, 0);
    }
    assert(0 <= m * b) by (nonlinear_arith)
        requires
            0 <= m,
            0 < b,
    ;
    lemma_round_magnitude(m * b, b);
    assert(k * d == m * b || k * d == -(m * b)) by (nonlinear_arith)
        requires
            b == d || b == -d,
            m == k || m == -k,
    ;
    assert((k * d == m * b) <==> ((k >= 0) == (d > 0)) || k == 0) by (nonlinear_arith)
        requires
            b == if d < 0 { -d } else { d },
            m == if k < 0 { -k } else { k },
            d != 0,
    ;
}

/// `round_div(a * b, d)`, where its magnitude is at most `QUOTIENT_MAX`.
pub(crate) fn mul_div_round(a: i128, b: u64, d: i128) -> (r: Option<i128>)
    requires
        d != 0,
        -(u64::MAX as int) <= d <= u64::MAX as int,
        i128::MIN < a,
    ensures
        r == if -(QUOTIENT_MAX as int) <= round_div(a * b, d as int) <= QUOTIENT_MAX as int {
            Some(round_div(a * b, d as int) as i128)
        } else {
            None
        },
{
    let ma: u128 = if a < 0 { (-a) as u128 } else { a as u128 };
    let md: u128 = if d < 0 { (-d) as u128 } else { d as u128 };
    let negative: bool = (a < 0) != (d < 0);
    let ghost m: int = ma as int * b as int;
    proof {
        assert(0 <= m) by (nonlinear_arith)
            requires
                m == ma as int * b as int,
        ;
        assert(a * b == m || a * b == -m) by (nonlinear_arith)
            requires
                m == ma as int * b as int,
                ma == a || ma == -a,
        ;
        assert((a * b == m) <==> (a >= 0 || m == 0)) by (nonlinear_arith)
            requires
                m == ma as int * b as int,
                ma as int == if a < 0 { -a } else { a as int },
        ;
        lemma_round_magnitude(m, md as int);
    }
    match ma.checked_mul(b as u128) {
        None => {
            proof {
                let big: int = 0x1_0000_0000_0000_0000int;
                assert(big * md as int <= m);
                vstd::arithmetic::div_mod::lemma_div_is_ordered(big * md as int, m, md as int);
                assert((big * md as int) / (md as int) == big) by {
                    lemma_fundamental_div_mod_converse(big * md as int, md as int, big, 0);
                }
            }
            None
        },
        Some(product) => {
            let q: u128 = product / md;
            let rest: u128 = product % md;
            if q > QUOTIENT_MAX as u128 {
                return None;
            }
            let rounded: u128 = if rest >= md - rest { q + 1 } else { q };
            if rounded > QUOTIENT_MAX as u128 {
                return None;
            }
            if negative {
                Some(-(rounded as i128))
            } else {
                Some(rounded as i128)
            }
        },
    }
}

/// The integer part of the square root of `n`.
pub fn floor_sqrt(n: u128) -> (s: u128)
    ensures
        is_floor_sqrt(n as int, s as int),
        s <= u64::MAX,
{
    let mut low: u128 = 0;
    let mut high: u128 = 0x1_0000_0000_0000_0000;
    assert(n < high * high) by (nonlinear_arith)
        requires
            high == 0x1_0000_0000_0000_0000u128,
            n <= u128::MAX,
    ;
    while high - low > 1
        invariant
            low < high <= 0x1_0000_0000_0000_0000u128,
            low * low <= n < high * high,
        decreases high - low,
    {
        let mid: u128 = low + (high - low) / 2;
        assert(mid * mid <= u128::MAX) by (nonlinear_arith)
            requires
                mid < 0x1_0000_0000_0000_0000u128,
        ;
        if mid * mid <= n {
            low = mid;
        } else {
            high = mid;
        }
    }
    low
}

} // verus!
