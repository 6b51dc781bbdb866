//! Integer helpers shared by the geometry: rounding divisions, bounds on
//! products, and a comparison of products too wide for one machine word.

use vstd::prelude::*;

verus! {

/// Two to the power 64.
pub const WORD: u128 = 0x1_0000_0000_0000_0000;

/// Largest first factor that [`product_less`] accepts: two to the power 124.
pub const WIDE_LIMIT: u128 = 0x1000_0000_0000_0000_0000_0000_0000_0000;

/// Largest magnitude that the rounding divisions accept: two to the power 125.
pub const DIVIDEND_LIMIT: i128 = 0x2000_0000_0000_0000_0000_0000_0000_0000;

/// The magnitude of an integer.
pub open spec fn abs(n: int) -> int {
    if n >= 0 {
        n
    } else {
        -n
    }
}

/// `n / d` rounded away from zero, for a positive divisor `d`.
pub open spec fn div_away(n: int, d: int) -> int {
    if n >= 0 {
        (n + d - 1) / d
    } else {
        -((-n + d - 1) / d)
    }
}

/// `n / d` rounded to the nearest integer, halves away from zero, for a
/// positive divisor `d`.
pub open spec fn div_nearest(n: int, d: int) -> int {
    if n >= 0 {
        (2 * n + d) / (2 * d)
    } else {
        -((2 * (-n) + d) / (2 * d))
    }
}

/// A product is bounded by the product of the bounds of its factors.
pub proof fn lemma_product_bounds(a: int, b: int, ma: int, mb: int)
    by (nonlinear_arith)
    requires
        -ma <= a <= ma,
        -mb <= b <= mb,
    ensures
        -(ma * mb) <= a * b <= ma * mb,
{
}

/// A square is never negative, and is bounded by the square of a bound.
pub proof fn lemma_square_bounds(a: int, ma: int)
    by (nonlinear_arith)
    requires
        -ma <= a <= ma,
    ensures
        0 <= a * a <= ma * ma,
{
}

/// Rounding away from zero never moves a quotient towards zero, and moves it
/// by less than one.
pub proof fn lemma_div_away_brackets(n: int, d: int)
    by (nonlinear_arith)
    requires
        d > 0,
    ensures
        n >= 0 ==> n <= div_away(n, d) * d < n + d,
        n <= 0 ==> n - d < div_away(n, d) * d <= n,
        n == 0 ==> div_away(n, d) == 0,
{
}

/// Where the divisor divides the dividend, rounding away from zero is exact.
pub proof fn lemma_div_away_exact(k: int, d: int)
    by (nonlinear_arith)
    requires
        d > 0,
    ensures
        div_away(k * d, d) == k,
{
}

/// A quotient rounded away from zero is no larger in magnitude than any
/// integer `q` with `|n| <= q * d`.
pub proof fn lemma_div_away_within(n: int, d: int, q: int)
    by (nonlinear_arith)
    requires
        d > 0,
        q >= 0,
        -(q * d) <= n <= q * d,
    ensures
        -q <= div_away(n, d) <= q,
{
}

/// Rounding to the nearest integer moves a quotient by at most one half.
pub proof fn lemma_div_nearest_brackets(n: int, d: int)
    by (nonlinear_arith)
    requires
        d > 0,
    ensures
        -d <= 2 * (div_nearest(n, d) * d - n) <= d,
{
}

/// Where the divisor divides the dividend, rounding to the nearest is exact.
pub proof fn lemma_div_nearest_exact(k: int, d: int)
    by (nonlinear_arith)
    requires
        d > 0,
    ensures
        div_nearest(k * d, d) == k,
{
}

/// A quotient rounded to the nearest is no larger in magnitude than any
/// integer `q` with `|n| <= q * d`.
pub proof fn lemma_div_nearest_within(n: int, d: int, q: int)
    by (nonlinear_arith)
    requires
        d > 0,
        q >= 0,
        -(q * d) <= n <= q * d,
    ensures
        -q <= div_nearest(n, d) <= q,
{
}

/// Computes `n / d` rounded away from zero.
pub fn div_away_exec(n: i128, d: i128) -> (q: i128)
    requires
        0 < d <= DIVIDEND_LIMIT,
        -DIVIDEND_LIMIT <= n <= DIVIDEND_LIMIT,
    ensures
        q == div_away(n as int, d as int),
{
    if n >= 0 {
        (n + d - 1) / d
    } else {
        let m: i128 = -n;
        let t: i128 = (m + d - 1) / d;
        -t
    }
}

/// Computes `n / d` rounded to the nearest integer, halves away from zero.
pub fn div_nearest_exec(n: i128, d: i128) -> (q: i128)
    requires
        0 < d <= DIVIDEND_LIMIT,
        -DIVIDEND_LIMIT <= n <= DIVIDEND_LIMIT,
    ensures
        q == div_nearest(n as int, d as int),
{
    if n >= 0 {
        (2 * n + d) / (2 * d)
    } else {
        let m: i128 = -n;
        let t: i128 = (2 * m + d) / (2 * d);
        -t
    }
}

/// Splits the product `x * y` into a high part and a low word:
/// `x * y == high * WORD + low` with `low < WORD`.
fn wide_product(x: u128, y: u64) -> (r: (u128, u128))
    requires
        x < WIDE_LIMIT,
    ensures
        r.0 * WORD + r.1 == x * y,
        r.1 < WORD,
{
    let x_low: u128 = x % WORD;
    let x_high: u128 = x / WORD;
    let wide_y: u128 = y as u128;
    assert(x_low * wide_y <= 0xFFFF_FFFF_FFFF_FFFF * 0xFFFF_FFFF_FFFF_FFFF) by (nonlinear_arith)
        requires
            x_low <= 0xFFFF_FFFF_FFFF_FFFF,
            wide_y <= 0xFFFF_FFFF_FFFF_FFFF,
    ;
    assert(x_high * wide_y <= 0x0FFF_FFFF_FFFF_FFFF * 0xFFFF_FFFF_FFFF_FFFF) by (nonlinear_arith)
        requires
            x_high <= 0x0FFF_FFFF_FFFF_FFFF,
            wide_y <= 0xFFFF_FFFF_FFFF_FFFF,
    ;
    let low: u128 = x_low * wide_y;
    let high: u128 = x_high * wide_y;
    assert(x * y == (x_high * wide_y) * WORD + x_low * wide_y) by (nonlinear_arith)
        requires
            x == x_high * WORD + x_low,
            wide_y == y,
    ;
    (high + low / WORD, low % WORD)
}

/// Whether `x1 * y1 < x2 * y2`, for first factors below two to the power 124.
pub fn product_less(x1: u128, y1: u64, x2: u128, y2: u64) -> (r: bool)
    requires
        x1 < WIDE_LIMIT,
        x2 < WIDE_LIMIT,
    ensures
        r == (x1 * y1 < x2 * y2),
{
    let (high1, low1) = wide_product(x1, y1);
    let (high2, low2) = wide_product(x2, y2);
    high1 < high2 || (high1 == high2 && low1 < low2)
}

} // verus!
