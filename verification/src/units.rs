//! Fixed-point units and the integer arithmetic shared by the whole crate.
//!
//! Time is counted in ticks, `TICKS_PER_SECOND` to the second. Progress through
//! an animation is counted in parts, `FULL` parts making the whole. All
//! divisions round in a stated direction, so every result is an exact integer
//! function of its inputs.

use vstd::prelude::*;
use vstd::arithmetic::div_mod::*;

verus! {

/// Number of time ticks in one second.
pub const TICKS_PER_SECOND: i64 = 1_000_000;

/// Progress value of a finished animation; progress runs from `0` to `FULL`.
pub const FULL: u32 = 1_000_000;

/// Number of length units in one pixel. Coordinates, widths and sizes are counted
/// in these units.
pub const UNITS_PER_PIXEL: u32 = 1_000;

/// `x` limited to the range from `lo` to `hi`.
pub open spec fn clamp(x: int, lo: int, hi: int) -> int {
    if x < lo {
        lo
    } else if x > hi {
        hi
    } else {
        x
    }
}

/// The largest integer not above `n / d`, for a positive `d`.
pub open spec fn floor_div(n: int, d: int) -> int {
    n / d
}

/// The smallest integer not below `n / d`, for a positive `d`.
pub open spec fn ceil_div(n: int, d: int) -> int {
    (n + d - 1) / d
}

/// The integer nearest to `n / d`, halves rounded up, for a positive `d`.
pub open spec fn round_div(n: int, d: int) -> int {
    (2 * n + d) / (2 * d)
}

/// The point `p / FULL` of the way from `a` to `b`, rounded to the nearest integer.
pub open spec fn lerp(a: int, b: int, p: int) -> int {
    a + round_div((b - a) * p, FULL as int)
}

/// A quotient is the floor of `n / d` exactly when `n` lies in its slot of width `d`.
pub proof fn lemma_floor_div_bounds(n: int, d: int, q: int)
    requires
        d > 0,
    ensures
        q == floor_div(n, d) <==> q * d <= n < (q + 1) * d,
{
    lemma_fundamental_div_mod(n, d);
    lemma_mod_bound(n, d);
    assert((q + 1) * d == q * d + d) by (nonlinear_arith);
    assert(d * (n / d) == (n / d) * d) by (nonlinear_arith);
    if q * d <= n < (q + 1) * d {
        lemma_fundamental_div_mod_converse_div(n, d, q, n - q * d);
    }
}

/// A quotient is the ceiling of `n / d` exactly when `n` lies in the slot that ends at it.
pub proof fn lemma_ceil_div_bounds(n: int, d: int, q: int)
    requires
        d > 0,
    ensures
        q == ceil_div(n, d) <==> (q - 1) * d < n <= q * d,
{
    lemma_floor_div_bounds(n + d - 1, d, q);
    assert((q + 1) * d == q * d + d) by (nonlinear_arith);
    assert((q - 1) * d == q * d - d) by (nonlinear_arith);
}

/// Floor division of machine integers.
pub fn div_floor(n: i128, d: i128) -> (q: i128)
    requires
        d > 0,
    ensures
        q == floor_div(n as int, d as int),
{
    let q: i128 = n / d;
    let r: i128 = n % d;
    proof {
        if n < 0 {
            let m = -(n as int);
            lemma_fundamental_div_mod(m, d as int);
            lemma_mod_bound(m, d as int);
            assert(q == -(m / (d as int)));
            assert(r == -(m % (d as int)));
            assert(n == q * d + r) by (nonlinear_arith)
                requires
                    m == d * (m / (d as int)) + m % (d as int),
                    q == -(m / (d as int)),
                    r == -(m % (d as int)),
                    n == -m,
            ;
        } else {
            lemma_fundamental_div_mod(n as int, d as int);
            lemma_mod_bound(n as int, d as int);
            assert(n == q * d + r) by (nonlinear_arith)
                requires
                    n == d * q + r,
            ;
        }
    }
    if r < 0 {
        proof {
            assert((q - 1) * d <= n < q * d) by (nonlinear_arith)
                requires
                    n == q * d + r,
                    -d < r < 0,
            ;
            lemma_floor_div_bounds(n as int, d as int, q - 1);
            assert(q - 1 >= i128::MIN) by (nonlinear_arith)
                requires
                    (q - 1) * d <= n < q * d,
                    d > 0,
                    n >= i128::MIN,
            ;
        }
        q - 1
    } else {
        proof {
            assert(q * d <= n < (q + 1) * d) by (nonlinear_arith)
                requires
                    n == q * d + r,
                    0 <= r < d,
            ;
            lemma_floor_div_bounds(n as int, d as int, q as int);
        }
        q
    }
}

/// Ceiling division of machine integers.
pub fn div_ceil(n: i128, d: i128) -> (q: i128)
    requires
        d > 0,
        n + d - 1 <= i128::MAX,
    ensures
        q == ceil_div(n as int, d as int),
{
    div_floor(n + (d - 1), d)
}

/// Rounding `n / d` moves it by less than one, and leaves whole multiples alone.
pub proof fn lemma_round_div_bounds(n: int, d: int, lo: int, hi: int)
    requires
        d > 0,
        lo * d <= n <= hi * d,
    ensures
        lo <= round_div(n, d) <= hi,
{
    let q = round_div(n, d);
    lemma_floor_div_bounds(2 * n + d, 2 * d, q);
    assert(q >= lo) by (nonlinear_arith)
        requires
            2 * n + d < (q + 1) * (2 * d),
            lo * d <= n,
            d > 0,
    ;
    assert(q <= hi) by (nonlinear_arith)
        requires
            q * (2 * d) <= 2 * n + d,
            n <= hi * d,
            d > 0,
    ;
}

/// Interpolation starts at `a`, ends at `b` and never leaves the range between them.
pub proof fn lemma_lerp_bounds(a: int, b: int, p: int)
    requires
        0 <= p <= FULL,
    ensures
        lerp(a, b, 0) == a,
        lerp(a, b, FULL as int) == b,
        a <= b ==> a <= lerp(a, b, p) <= b,
        b <= a ==> b <= lerp(a, b, p) <= a,
{
    let f = FULL as int;
    assert((b - a) * 0 == 0);
    lemma_round_div_bounds(0, f, 0, 0);
    lemma_round_div_bounds((b - a) * f, f, b - a, b - a);
    if a <= b {
        assert(0 * f <= (b - a) * p <= (b - a) * f) by (nonlinear_arith)
            requires
                0 <= p <= f,
                a <= b,
        ;
        lemma_round_div_bounds((b - a) * p, f, 0, b - a);
    }
    if b <= a {
        assert((b - a) * f <= (b - a) * p <= 0 * f) by (nonlinear_arith)
            requires
                0 <= p <= f,
                b <= a,
        ;
        lemma_round_div_bounds((b - a) * p, f, b - a, 0);
    }
}

/// Linear interpolation of machine integers: the point `p / FULL` of the way from
/// `a` to `b`.
pub fn interpolate(a: i64, b: i64, p: u32) -> (r: i64)
    requires
        p <= FULL,
    ensures
        r == lerp(a as int, b as int, p as int),
{
    let span: i128 = b as i128 - a as i128;
    let full: i128 = FULL as i128;
    proof {
        lemma_lerp_bounds(a as int, b as int, p as int);
        assert(-0x1_0000_0000_0000_0000 * 1_000_000 <= span * (p as int)
            <= 0x1_0000_0000_0000_0000 * 1_000_000) by (nonlinear_arith)
            requires
                -0x1_0000_0000_0000_0000 <= span <= 0x1_0000_0000_0000_0000,
                0 <= p <= 1_000_000,
        ;
    }
    let scaled: i128 = span * (p as i128);
    let q: i128 = div_floor(2 * scaled + full, 2 * full);
    (a as i128 + q) as i64
}

/// The whole part of `count * p / FULL`: how many of `count` steps are done at
/// progress `p`.
pub open spec fn share(count: int, p: int) -> int {
    floor_div(count * p, FULL as int)
}

/// What is left of `count * p / FULL` beyond its whole part, in parts of `FULL`:
/// the progress within the step that is under way.
pub open spec fn share_rest(count: int, p: int) -> int {
    count * p - share(count, p) * FULL
}

/// The steps done never outnumber the steps, and all are done only at full progress.
pub proof fn lemma_share_bounds(count: int, p: int)
    requires
        0 <= count,
        0 <= p <= FULL,
    ensures
        0 <= share(count, p) <= count,
        0 <= share_rest(count, p) < FULL,
        share(count, p) == count <==> count == 0 || p == FULL,
        share(count, 0) == 0,
{
    let f = FULL as int;
    let q = share(count, p);
    lemma_floor_div_bounds(count * p, f, q);
    assert(0 <= count * p <= count * f) by (nonlinear_arith)
        requires
            0 <= count,
            0 <= p <= f,
    ;
    assert(q <= count) by (nonlinear_arith)
        requires
            q * f <= count * p,
            count * p <= count * f,
            f > 0,
    ;
    assert(q >= 0) by (nonlinear_arith)
        requires
            count * p < (q + 1) * f,
            0 <= count * p,
            f > 0,
    ;
    if p < f && count > 0 {
        assert(count * p < count * f) by (nonlinear_arith)
            requires
                0 < count,
                0 <= p < f,
        ;
    }
    if p == f {
        lemma_floor_div_bounds(count * f, f, count);
    }
    assert(count * 0 == 0);
    lemma_floor_div_bounds(0, f, 0);
}

/// How many of `count` steps are done at the given progress, and the progress
/// within the step that is under way.
pub fn portion(count: usize, progress: u32) -> (r: (usize, u32))
    requires
        progress <= FULL,
    ensures
        r.0 == share(count as int, progress as int),
        r.1 == share_rest(count as int, progress as int),
        r.0 <= count,
        r.1 < FULL,
        r.0 == count <==> count == 0 || progress == FULL,
{
    proof {
        lemma_share_bounds(count as int, progress as int);
        assert(0 <= count * progress <= 0x1_0000_0000_0000_0000 * 1_000_000) by (nonlinear_arith)
            requires
                0 <= count <= 0x1_0000_0000_0000_0000,
                0 <= progress <= 1_000_000,
        ;
    }
    let scaled: u128 = count as u128 * progress as u128;
    let done: u128 = scaled / (FULL as u128);
    let rest: u128 = scaled % (FULL as u128);
    proof {
        lemma_fundamental_div_mod(scaled as int, FULL as int);
        assert(FULL * (scaled as int / FULL as int) == (scaled as int / FULL as int) * FULL)
            by (nonlinear_arith);
    }
    (done as usize, rest as u32)
}

} // verus!
