//! Saturating fixed-point scalars.
//!
//! A scalar is an `i64` that counts billionths: the raw value `n` stands
//! for the number `n / ONE`. Results are rounded toward zero and held
//! within `[-LIMIT, LIMIT]`, so the arithmetic is symmetric under negation.

use vstd::prelude::*;

verus! {

/// A fixed-point number: the raw count of billionths.
pub type Scalar = i64;

/// The raw value of the number one.
pub const ONE: i64 = 1_000_000_000;

/// The largest magnitude a result can have.
pub const LIMIT: i64 = 9_223_372_036_854_775_807;

/// The value `v` held within `[-LIMIT, LIMIT]`.
pub open spec fn sat(v: int) -> int {
    if v > LIMIT {
        LIMIT as int
    } else if v < -LIMIT {
        -LIMIT
    } else {
        v
    }
}

/// The magnitude of `v`.
pub open spec fn magnitude(v: int) -> int {
    if v < 0 {
        -v
    } else {
        v
    }
}

/// The quotient of `n` by `d` rounded toward zero, for `d != 0`.
pub open spec fn tdiv(n: int, d: int) -> int {
    if (n >= 0) == (d > 0) {
        magnitude(n) / magnitude(d)
    } else {
        -(magnitude(n) / magnitude(d))
    }
}

/// The largest `r >= 0` with `r * r <= n`, and 0 for negative `n`.
pub open spec fn floor_sqrt(n: int) -> int
    decreases n,
{
    if n <= 0 {
        0
    } else {
        let r = floor_sqrt(n - 1);
        if (r + 1) * (r + 1) <= n {
            r + 1
        } else {
            r
        }
    }
}

/// `floor_sqrt(n)` is the integer square root of a non-negative `n`.
pub proof fn lemma_floor_sqrt(n: int)
    requires
        n >= 0,
    ensures
        floor_sqrt(n) >= 0,
        floor_sqrt(n) * floor_sqrt(n) <= n,
        n < (floor_sqrt(n) + 1) * (floor_sqrt(n) + 1),
    decreases n,
{
    if n > 0 {
        lemma_floor_sqrt(n - 1);
        let r = floor_sqrt(n - 1);
        assert((r + 1) * (r + 1) < (r + 2) * (r + 2)) by (nonlinear_arith)
            requires
                r >= 0,
        ;
    }
}

/// The integer square root of `n` is the only `r >= 0` with
/// `r * r <= n < (r + 1) * (r + 1)`.
pub proof fn lemma_floor_sqrt_unique(n: int, r: int)
    requires
        r >= 0,
        r * r <= n,
        n < (r + 1) * (r + 1),
    ensures
        r == floor_sqrt(n),
{
    lemma_floor_sqrt(n);
    let s = floor_sqrt(n);
    assert(r == s) by (nonlinear_arith)
        requires
            r >= 0,
            s >= 0,
            r * r <= n,
            n < (r + 1) * (r + 1),
            s * s <= n,
            n < (s + 1) * (s + 1),
    ;
}

/// A quotient rounded toward zero grows with its dividend.
pub proof fn lemma_tdiv_monotone(x: int, y: int, d: int)
    requires
        x <= y,
        d > 0,
    ensures
        tdiv(x, d) <= tdiv(y, d),
{
    if x >= 0 {
        vstd::arithmetic::div_mod::lemma_div_is_ordered(x, y, d);
    } else if y < 0 {
        vstd::arithmetic::div_mod::lemma_div_is_ordered(-y, -x, d);
    } else {
        vstd::arithmetic::div_mod::lemma_div_pos_is_pos(-x, d);
        vstd::arithmetic::div_mod::lemma_div_pos_is_pos(y, d);
    }
}

/// A quotient by a positive scalar grows with its dividend.
pub proof fn lemma_over_monotone(x: int, y: int, b: int)
    requires
        x <= y,
        b > 0,
    ensures
        spec_over(x, b) <= spec_over(y, b),
{
    lemma_tdiv_monotone(x * ONE, y * ONE, b);
}

/// The saturated sum.
pub open spec fn spec_plus(a: int, b: int) -> int {
    sat(a + b)
}

/// The saturated difference.
pub open spec fn spec_minus(a: int, b: int) -> int {
    sat(a - b)
}

/// The saturated negation.
pub open spec fn spec_negate(a: int) -> int {
    sat(-a)
}

/// The saturated product of two fixed-point numbers, rounded toward zero.
pub open spec fn spec_times(a: int, b: int) -> int {
    sat(tdiv(a * b, ONE as int))
}

/// The saturated quotient of two fixed-point numbers, rounded toward zero.
pub open spec fn spec_over(a: int, b: int) -> int {
    sat(tdiv(a * ONE, b))
}

/// The square root of a fixed-point number, rounded down; 0 below zero.
pub open spec fn spec_sqrt(a: int) -> int {
    floor_sqrt(a * ONE)
}

/// Holds a wide value within the representable range.
pub fn saturate(v: i128) -> (r: i64)
    ensures
        r == sat(v as int),
{
    if v > LIMIT as i128 {
        LIMIT
    } else if v < -(LIMIT as i128) {
        -LIMIT
    } else {
        v as i64
    }
}

/// The magnitude of a scalar, which may be one more than `LIMIT`.
pub fn magnitude_of(a: i64) -> (r: u128)
    ensures
        r == magnitude(a as int),
{
    if a < 0 {
        (-(a as i128)) as u128
    } else {
        a as u128
    }
}

/// Gives a magnitude its sign back and holds it within range.
fn signed(negative: bool, m: u128) -> (r: i64)
    ensures
        r == sat(if negative { -(m as int) } else { m as int }),
{
    if m > LIMIT as u128 {
        if negative {
            -LIMIT
        } else {
            LIMIT
        }
    } else {
        let v: i64 = m as i64;
        if negative {
            -v
        } else {
            v
        }
    }
}

/// The integer square root.
pub fn isqrt(n: u128) -> (r: u64)
    ensures
        r == floor_sqrt(n as int),
{
    let mut lo: u128 = 0;
    let mut hi: u128 = 18_446_744_073_709_551_616;
    while hi - lo > 1
        invariant
            lo < hi <= 18_446_744_073_709_551_616,
            lo * lo <= n,
            n < hi * hi,
        decreases hi - lo,
    {
        let mid: u128 = lo + (hi - lo) / 2;
        assert(mid * mid <= 18_446_744_073_709_551_615 * 18_446_744_073_709_551_615)
            by (nonlinear_arith)
            requires
                0 <= mid <= 18_446_744_073_709_551_615,
        ;
        if mid * mid <= n {
            lo = mid;
        } else {
            hi = mid;
        }
    }
    proof {
        lemma_floor_sqrt_unique(n as int, lo as int);
    }
    lo as u64
}

/// Adds two scalars.
pub fn plus(a: Scalar, b: Scalar) -> (r: Scalar)
    ensures
        r == spec_plus(a as int, b as int),
{
    saturate(a as i128 + b as i128)
}

/// Subtracts `b` from `a`.
pub fn minus(a: Scalar, b: Scalar) -> (r: Scalar)
    ensures
        r == spec_minus(a as int, b as int),
{
    saturate(a as i128 - b as i128)
}

/// Negates a scalar.
pub fn negate(a: Scalar) -> (r: Scalar)
    ensures
        r == spec_negate(a as int),
{
    saturate(-(a as i128))
}

/// Multiplies two scalars.
pub fn times(a: Scalar, b: Scalar) -> (r: Scalar)
    ensures
        r == spec_times(a as int, b as int),
{
    let ma: u128 = magnitude_of(a);
    let mb: u128 = magnitude_of(b);
    assert(ma * mb <= 9_223_372_036_854_775_808 * 9_223_372_036_854_775_808) by (nonlinear_arith)
        requires
            0 <= ma <= 9_223_372_036_854_775_808,
            0 <= mb <= 9_223_372_036_854_775_808,
    ;
    assert(magnitude(a as int * b as int) == ma * mb && ((a as int * b as int >= 0) || ((a < 0)
        != (b < 0))) && ((a < 0) != (b < 0) ==> a as int * b as int <= 0)) by (nonlinear_arith)
        requires
            ma == magnitude(a as int),
            mb == magnitude(b as int),
    ;
    let q: u128 = ma * mb / (ONE as u128);
    signed((a < 0) != (b < 0), q)
}

/// Divides `a` by a non-zero `b`.
pub fn over(a: Scalar, b: Scalar) -> (r: Scalar)
    requires
        b != 0,
    ensures
        r == spec_over(a as int, b as int),
{
    let ma: u128 = magnitude_of(a);
    let mb: u128 = magnitude_of(b);
    let q: u128 = ma * (ONE as u128) / mb;
    assert(ma == 0 ==> q == 0) by (nonlinear_arith)
        requires
            q == (ma * 1_000_000_000) / (mb as int),
            mb > 0,
    ;
    signed((a < 0) != (b < 0), q)
}

/// The square root of a scalar; 0 for a negative one.
pub fn sqrt(a: Scalar) -> (r: Scalar)
    ensures
        r == spec_sqrt(a as int),
{
    if a <= 0 {
        0
    } else {
        let wide: u128 = a as u128;
        let n: u128 = wide * 1_000_000_000;
        let root: u64 = isqrt(n);
        proof {
            lemma_floor_sqrt(n as int);
            assert(root < 9_223_372_036_854_775_807) by (nonlinear_arith)
                requires
                    root * root <= n,
                    n <= 9_223_372_036_854_775_807 * 1_000_000_000,
                    root >= 0,
            ;
        }
        root as i64
    }
}

} // verus!
