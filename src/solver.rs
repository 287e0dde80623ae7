//! Mathematical model of the two Newton solvers of the StableSwap invariant
//! for a pool of two coins.
//!
//! Every quantity is an unbounded integer and every division is a floor
//! division, exactly as the fixed-width code computes it. Beside each value
//! stands a predicate saying that the fixed-width computation of that value
//! keeps every intermediate inside a `u128` and never divides by zero.
use vstd::arithmetic::div_mod::{lemma_div_by_multiple, lemma_div_pos_is_pos};
use vstd::prelude::*;

verus! {

/// An intermediate fits in the working word.
pub open spec fn fits(v: int) -> bool {
    0 <= v <= u128::MAX
}

/// Distance between two integers.
pub open spec fn abs_diff(x: int, y: int) -> int {
    if x >= y {
        x - y
    } else {
        y - x
    }
}

/// `A * n` for `n = 2` coins.
pub open spec fn leverage(amp: int) -> int {
    amp * 2
}

/// The product term `D^3 / (4 a b)`, floored after each of the two divisions.
pub open spec fn d_product(a: int, b: int, d: int) -> int {
    d * d / (a * 2) * d / (b * 2)
}

/// One Newton step for D, with `lev = A * n`.
pub open spec fn d_next(lev: int, a: int, b: int, d: int) -> int {
    let dp = d_product(a, b, d);
    (lev * (a + b) + dp * 2) * d / ((lev - 1) * d + 3 * dp)
}

/// The fixed-width computation of `d_next` neither overflows nor divides by zero,
/// given that `lev * (a + b)` was already found to fit.
pub open spec fn d_step_fits(lev: int, a: int, b: int, d: int) -> bool {
    let dp = d_product(a, b, d);
    let num = lev * (a + b) + dp * 2;
    let den = (lev - 1) * d + 3 * dp;
    &&& fits(d * d)
    &&& 0 < a * 2 <= u128::MAX
    &&& fits(d * d / (a * 2) * d)
    &&& 0 < b * 2 <= u128::MAX
    &&& fits(dp * 2)
    &&& fits(num)
    &&& fits(num * d)
    &&& fits((lev - 1) * d)
    &&& fits(3 * dp)
    &&& fits(den)
    &&& den != 0
}

/// Newton iteration for D from `d`, with at most `k` steps left. It stops on the
/// first step that moves D by at most one.
pub open spec fn d_iterate(lev: int, a: int, b: int, d: int, k: nat) -> int
    decreases k,
{
    if k == 0 {
        d
    } else {
        let next = d_next(lev, a, b, d);
        if abs_diff(next, d) <= 1 {
            next
        } else {
            d_iterate(lev, a, b, next, (k - 1) as nat)
        }
    }
}

/// Every step that `d_iterate` takes fits in the working word.
pub open spec fn d_iterate_fits(lev: int, a: int, b: int, d: int, k: nat) -> bool
    decreases k,
{
    k == 0 || {
        let next = d_next(lev, a, b, d);
        d_step_fits(lev, a, b, d) && (abs_diff(next, d) <= 1 || d_iterate_fits(
            lev,
            a,
            b,
            next,
            (k - 1) as nat,
        ))
    }
}

/// The StableSwap invariant D of reserves `(a, b)` under amplification `amp`:
/// zero for an empty pool, else at most 128 Newton steps starting from `a + b`.
pub open spec fn invariant_d(amp: int, a: int, b: int) -> int {
    if a + b == 0 {
        0
    } else {
        d_iterate(leverage(amp), a, b, a + b, 128)
    }
}

/// The computation of `invariant_d` fits in the working word.
pub open spec fn d_fits(amp: int, a: int, b: int) -> bool {
    &&& fits(a + b)
    &&& (a + b == 0 || {
        &&& fits(leverage(amp))
        &&& leverage(amp) >= 1
        &&& fits(leverage(amp) * (a + b))
        &&& d_iterate_fits(leverage(amp), a, b, a + b, 128)
    })
}

/// The constant term `c = D^3 / (x n n A n)` of the quadratic in y.
pub open spec fn y_c(amp: int, x: int, d: int) -> int {
    d * d * d / (x * 2 * 2 * leverage(amp))
}

/// The linear coefficient `b = x + D / (A n)` of the quadratic in y
/// (D itself is subtracted in each step).
pub open spec fn y_b(amp: int, x: int, d: int) -> int {
    x + d / leverage(amp)
}

/// One Newton step for y.
pub open spec fn y_next(c: int, b: int, d: int, y: int) -> int {
    (y * y + c) / (2 * y + b - d)
}

/// The fixed-width computation of `y_next` neither overflows, underflows nor
/// divides by zero.
pub open spec fn y_step_fits(c: int, b: int, d: int, y: int) -> bool {
    &&& fits(y * y)
    &&& fits(y * y + c)
    &&& fits(2 * y)
    &&& fits(2 * y + b)
    &&& 2 * y + b - d > 0
}

/// Newton iteration for y from `y`, with at most `k` steps left. It stops on the
/// first step that moves y by at most one.
pub open spec fn y_iterate(c: int, b: int, d: int, y: int, k: nat) -> int
    decreases k,
{
    if k == 0 {
        y
    } else {
        let next = y_next(c, b, d, y);
        if abs_diff(next, y) <= 1 {
            next
        } else {
            y_iterate(c, b, d, next, (k - 1) as nat)
        }
    }
}

/// Every step that `y_iterate` takes fits in the working word.
pub open spec fn y_iterate_fits(c: int, b: int, d: int, y: int, k: nat) -> bool
    decreases k,
{
    k == 0 || {
        let next = y_next(c, b, d, y);
        y_step_fits(c, b, d, y) && (abs_diff(next, y) <= 1 || y_iterate_fits(
            c,
            b,
            d,
            next,
            (k - 1) as nat,
        ))
    }
}

/// The reserve y of the other coin that keeps the invariant at `d` when one
/// reserve is `x`: at most 128 Newton steps starting from `d`.
pub open spec fn invariant_y(amp: int, x: int, d: int) -> int {
    y_iterate(y_c(amp, x, d), y_b(amp, x, d), d, d, 128)
}

/// The computation of `invariant_y` fits in the working word.
pub open spec fn y_fits(amp: int, x: int, d: int) -> bool {
    let lev = leverage(amp);
    &&& fits(lev)
    &&& fits(d * d)
    &&& fits(d * d * d)
    &&& fits(x * 2)
    &&& fits(x * 2 * 2)
    &&& fits(x * 2 * 2 * lev)
    &&& x * 2 * 2 * lev != 0
    &&& lev != 0
    &&& fits(y_b(amp, x, d))
    &&& y_iterate_fits(y_c(amp, x, d), y_b(amp, x, d), d, d, 128)
}

/// Newton iteration for y from a non-negative start stays non-negative
/// wherever it fits the working word.
pub proof fn lemma_y_iterate_nonneg(c: int, b: int, d: int, y: int, k: nat)
    requires
        c >= 0,
        y >= 0,
        y_iterate_fits(c, b, d, y, k),
    ensures
        y_iterate(c, b, d, y, k) >= 0,
    decreases k,
{
    if k > 0 {
        let next = y_next(c, b, d, y);
        assert(y * y >= 0) by (nonlinear_arith);
        lemma_div_pos_is_pos(y * y + c, 2 * y + b - d);
        if abs_diff(next, y) > 1 {
            lemma_y_iterate_nonneg(c, b, d, next, (k - 1) as nat);
        }
    }
}

/// Newton iteration for D from a non-negative start stays non-negative
/// wherever it fits the working word.
pub proof fn lemma_d_iterate_nonneg(lev: int, a: int, b: int, d: int, k: nat)
    requires
        d >= 0,
        d_iterate_fits(lev, a, b, d, k),
    ensures
        d_iterate(lev, a, b, d, k) >= 0,
    decreases k,
{
    if k > 0 {
        let dp = d_product(a, b, d);
        let next = d_next(lev, a, b, d);
        lemma_div_pos_is_pos((lev * (a + b) + dp * 2) * d, (lev - 1) * d + 3 * dp);
        if abs_diff(next, d) > 1 {
            lemma_d_iterate_nonneg(lev, a, b, next, (k - 1) as nat);
        }
    }
}

/// The invariant D is non-negative wherever its computation fits.
pub proof fn lemma_invariant_d_nonneg(amp: int, a: int, b: int)
    requires
        d_fits(amp, a, b),
    ensures
        invariant_d(amp, a, b) >= 0,
{
    if a + b != 0 {
        lemma_d_iterate_nonneg(leverage(amp), a, b, a + b, 128);
    }
}

/// The reserve y is non-negative wherever its computation fits.
pub proof fn lemma_invariant_y_nonneg(amp: int, x: int, d: int)
    requires
        x >= 0,
        d >= 0,
        y_fits(amp, x, d),
    ensures
        invariant_y(amp, x, d) >= 0,
{
    let lev = leverage(amp);
    assert(d * d * d >= 0 && x * 2 * 2 * lev > 0) by (nonlinear_arith)
        requires
            d >= 0,
            x >= 0,
            x * 2 * 2 * lev != 0,
            lev >= 0,
    ;
    lemma_div_pos_is_pos(d * d * d, x * 2 * 2 * lev);
    lemma_y_iterate_nonneg(y_c(amp, x, d), y_b(amp, x, d), d, d, 128);
}

/// An empty pool has invariant zero.
pub proof fn lemma_empty_pool_d(amp: int)
    ensures
        invariant_d(amp, 0, 0) == 0,
        d_fits(amp, 0, 0),
{
}

/// A balanced pool `(x, x)` has invariant exactly `2 x`, whatever the
/// amplification: the first Newton step from `2 x` stays at `2 x`.
pub proof fn lemma_balanced_pool_d(amp: int, x: int)
    requires
        amp >= 1,
        x > 0,
    ensures
        invariant_d(amp, x, x) == 2 * x,
{
    let lev = leverage(amp);
    let s = 2 * x;
    assert(s * s == s * (x * 2)) by (nonlinear_arith)
        requires
            s == 2 * x,
    ;
    lemma_div_by_multiple(s, x * 2);
    assert(s * s / (x * 2) == s);
    assert(d_product(x, x, s) == s);
    let m = (lev + 2) * s;
    assert(lev * (x + x) + s * 2 == m) by (nonlinear_arith)
        requires
            s == 2 * x,
            m == (lev + 2) * s,
    ;
    assert((lev - 1) * s + 3 * s == m) by (nonlinear_arith)
        requires
            m == (lev + 2) * s,
    ;
    assert(m > 0) by (nonlinear_arith)
        requires
            m == (lev + 2) * s,
            lev >= 2,
            s > 0,
    ;
    assert(m * s == s * m) by (nonlinear_arith);
    lemma_div_by_multiple(s, m);
    assert(d_next(lev, x, x, s) == s);
}

} // verus!
