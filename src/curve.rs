//! Swap calculations and the pool-token converter.
use crate::error::SwapError;
use crate::solver::{
    abs_diff, d_fits, d_iterate, d_iterate_fits, d_next, d_step_fits, fits, invariant_d, invariant_y,
    lemma_invariant_d_nonneg, lemma_invariant_y_nonneg, leverage, y_b, y_c, y_fits, y_iterate, y_iterate_fits, y_next, y_step_fits,
};
use vstd::arithmetic::div_mod::{lemma_div_by_multiple, lemma_div_is_ordered, lemma_div_pos_is_pos};
use vstd::prelude::*;

verus! {

/// `x * y`, or `None` when it leaves the working word.
fn mul_word(x: u128, y: u128) -> (r: Option<u128>)
    ensures
        r is Some <==> fits(x * y),
        r is Some ==> r.unwrap() == x * y,
{
    assert(x * y >= 0) by (nonlinear_arith);
    x.checked_mul(y)
}

/// One Newton step for D, or `None` where its fixed-width computation fails.
fn d_step(lev: u128, lev_sum: u128, a: u128, b: u128, d: u128) -> (r: Option<u128>)
    requires
        lev >= 1,
        lev_sum == lev * (a + b),
    ensures
        r is Some <==> d_step_fits(lev as int, a as int, b as int, d as int),
        r is Some ==> r.unwrap() == d_next(lev as int, a as int, b as int, d as int),
{
    let dd = match mul_word(d, d) {
        Some(v) => v,
        None => return None,
    };
    let a2 = match mul_word(a, 2) {
        Some(v) if v != 0 => v,
        _ => return None,
    };
    let dp1 = match mul_word(dd / a2, d) {
        Some(v) => v,
        None => return None,
    };
    let b2 = match mul_word(b, 2) {
        Some(v) if v != 0 => v,
        _ => return None,
    };
    let dp = dp1 / b2;
    let dp2 = match mul_word(dp, 2) {
        Some(v) => v,
        None => return None,
    };
    let num = match lev_sum.checked_add(dp2) {
        Some(v) => v,
        None => return None,
    };
    let num_d = match mul_word(num, d) {
        Some(v) => v,
        None => return None,
    };
    let den_d = match mul_word(lev - 1, d) {
        Some(v) => v,
        None => return None,
    };
    let den_p = match mul_word(3, dp) {
        Some(v) => v,
        None => return None,
    };
    let den = match den_d.checked_add(den_p) {
        Some(v) if v != 0 => v,
        _ => return None,
    };
    Some(num_d / den)
}

/// One Newton step for y, or `None` where its fixed-width computation fails.
fn y_step(c: u128, b: u128, d: u128, y: u128) -> (r: Option<u128>)
    ensures
        r is Some <==> y_step_fits(c as int, b as int, d as int, y as int),
        r is Some ==> r.unwrap() == y_next(c as int, b as int, d as int, y as int),
{
    let yy = match mul_word(y, y) {
        Some(v) => v,
        None => return None,
    };
    let num = match yy.checked_add(c) {
        Some(v) => v,
        None => return None,
    };
    let y2 = match mul_word(2, y) {
        Some(v) => v,
        None => return None,
    };
    let y2b = match y2.checked_add(b) {
        Some(v) => v,
        None => return None,
    };
    if y2b <= d {
        return None;
    }
    Some(num / (y2b - d))
}

/// `|x - y|` on words.
fn word_distance(x: u128, y: u128) -> (r: u128)
    ensures
        r == abs_diff(x as int, y as int),
{
    if x >= y {
        x - y
    } else {
        y - x
    }
}

/// Encodes all results of swapping from a source token to a destination token
pub struct SwapResult {
    /// New amount of source token
    pub new_source_amount: u128,
    /// New amount of destination token
    pub new_destination_amount: u128,
    /// Amount of destination token swapped
    pub amount_swapped: u128,
}

impl SwapResult {
    /// The three amounts of a possible result, as integers.
    pub open spec fn outcome_of(r: Option<SwapResult>) -> Option<(int, int, int)> {
        match r {
            Some(s) => Some(
                (s.new_source_amount as int, s.new_destination_amount as int, s.amount_swapped as int),
            ),
            None => None,
        }
    }
}

/// Gross output of a swap of `input` into reserves `(src, dst)`, before the fee:
/// what leaves the destination reserve when the invariant is held fixed.
pub open spec fn swap_gross(amp: int, input: int, src: int, dst: int) -> int {
    dst - invariant_y(amp, src + input, invariant_d(amp, src, dst))
}

/// The fee kept in the pool out of the gross output.
pub open spec fn swap_fee(amp: int, input: int, src: int, dst: int, num: int, den: int) -> int {
    swap_gross(amp, input, src, dst) * num / den
}

/// The outcome `(new source reserve, new destination reserve, net output)` of a
/// swap, or `None` where an intermediate leaves the working word, a divisor is
/// zero, the gross output is not positive, or the fee exceeds it.
pub open spec fn swap_outcome(amp: int, input: int, src: int, dst: int, num: int, den: int) -> Option<
    (int, int, int),
> {
    let d = invariant_d(amp, src, dst);
    let gross = swap_gross(amp, input, src, dst);
    let fee = swap_fee(amp, input, src, dst, num, den);
    let out = gross - fee;
    if fits(src + input) && d_fits(amp, src, dst) && y_fits(amp, src + input, d) && gross > 0
        && fits(gross * num) && den != 0 && fee <= gross {
        Some((src + input, dst - out, out))
    } else {
        None
    }
}

/// The amounts `(received, fee)` of a single-sided withdrawal of `p` pool
/// tokens out of `supply` in the base coin, or `None` where an intermediate
/// leaves the working word, a divisor is zero or a difference is negative.
pub open spec fn withdraw_one_outcome(
    amp: int,
    p: int,
    supply: int,
    base: int,
    quote: int,
    num: int,
    den: int,
) -> Option<(int, int)> {
    let d0 = invariant_d(amp, base, quote);
    let burned = p * d0 / supply;
    let d1 = d0 - burned;
    let new_y = invariant_y(amp, quote, d1);
    let fee = num * 2 / 4;
    let base_scaled = base * d1 / d0;
    let expected_base = base_scaled - new_y;
    let quote_scaled = quote * d1 / d0;
    let expected_quote = quote - quote_scaled;
    let base_fee = expected_base * fee / den;
    let quote_fee = expected_quote * fee / den;
    let new_base = base - base_fee;
    let new_quote = quote - quote_fee;
    let y_after = invariant_y(amp, new_quote, d1);
    let dy = new_base - y_after;
    let dy_0 = base - new_y;
    if d_fits(amp, base, quote) && fits(p * d0) && supply != 0 && burned <= d0 && y_fits(
        amp,
        quote,
        d1,
    ) && fits(base * d1) && d0 != 0 && new_y <= base_scaled && fits(quote * d1) && quote_scaled
        <= quote && fits(expected_base * fee) && den != 0 && base_fee <= base && fits(
        expected_quote * fee,
    ) && quote_fee <= quote && y_fits(amp, new_quote, d1) && y_after <= new_base && new_y <= base
        && dy <= dy_0 {
        Some((dy, dy_0 - dy))
    } else {
        None
    }
}

/// A swap adds exactly the input to the source reserve and takes the net output
/// from the destination reserve, so the gross output is accounted for by the
/// net output and the fee kept in the pool: `new_src + gross == src + input +
/// (dst - new_dst) + fee`. Where the fee part is at most one, the two sides of
/// `new_src + gross == src + input + dst - new_dst` are therefore within one.
pub proof fn lemma_swap_conservation(
    amp: u128,
    input: u128,
    src: u128,
    dst: u128,
    num: u128,
    den: u128,
)
    requires
        swap_outcome(amp as int, input as int, src as int, dst as int, num as int, den as int) is Some,
    ensures
        ({
            let o = swap_outcome(
                amp as int,
                input as int,
                src as int,
                dst as int,
                num as int,
                den as int,
            ).unwrap();
            let gross = swap_gross(amp as int, input as int, src as int, dst as int);
            let fee = swap_fee(amp as int, input as int, src as int, dst as int, num as int, den as int);
            &&& o.0 == src + input
            &&& o.1 == dst - o.2
            &&& 0 <= o.2 <= dst
            &&& o.2 + fee == gross
            &&& 0 <= fee
            &&& o.0 + gross == src + input + (dst - o.1) + fee
            &&& fee <= 1 ==> abs_diff(o.0 + gross, src + input + dst - o.1) <= 1
        }),
{
    let gross = swap_gross(amp as int, input as int, src as int, dst as int);
    let d = invariant_d(amp as int, src as int, dst as int);
    lemma_invariant_d_nonneg(amp as int, src as int, dst as int);
    lemma_invariant_y_nonneg(amp as int, src + input, d);
    assert(gross * num >= 0) by (nonlinear_arith)
        requires
            gross > 0,
            num >= 0,
    ;
    lemma_div_pos_is_pos(gross * num, den as int);
}

/// A larger fee numerator, all else the same, never gives a larger net output:
/// where the swap succeeds with the larger numerator, it succeeds with the
/// smaller one too, with at least as much output.
pub proof fn lemma_fee_monotone(
    amp: u128,
    input: u128,
    src: u128,
    dst: u128,
    num_lo: u128,
    num_hi: u128,
    den: u128,
)
    requires
        num_lo <= num_hi,
        swap_outcome(amp as int, input as int, src as int, dst as int, num_hi as int, den as int) is Some,
    ensures
        swap_outcome(amp as int, input as int, src as int, dst as int, num_lo as int, den as int) is Some,
        swap_outcome(
            amp as int,
            input as int,
            src as int,
            dst as int,
            num_lo as int,
            den as int,
        ).unwrap().2 >= swap_outcome(
            amp as int,
            input as int,
            src as int,
            dst as int,
            num_hi as int,
            den as int,
        ).unwrap().2,
{
    let gross = swap_gross(amp as int, input as int, src as int, dst as int);
    assert(0 <= gross * num_lo <= gross * num_hi) by (nonlinear_arith)
        requires
            gross > 0,
            0 <= num_lo <= num_hi,
    ;
    lemma_div_is_ordered(gross * num_lo, gross * num_hi, den as int);
}

/// A swap in which the input or one of the reserves is the largest word, the
/// others positive, overflows the working word and gives no result.
pub proof fn lemma_swap_overflow_at_word_max(
    amp: u128,
    input: u128,
    src: u128,
    dst: u128,
    num: u128,
    den: u128,
)
    requires
        input > 0,
        src > 0,
        dst > 0,
        input == u128::MAX || src == u128::MAX || dst == u128::MAX,
    ensures
        swap_outcome(amp as int, input as int, src as int, dst as int, num as int, den as int) is None,
{
}

/// The StableSwap invariant calculator.
pub struct StableSwap {
    /// Amplification coefficient (A)
    pub amp_factor: u128,
}

impl StableSwap {
    /// A calculator for amplification coefficient `amp_factor_u64`, which must
    /// be at least one.
    pub fn new(amp_factor_u64: u64) -> (r: Result<StableSwap, SwapError>)
        ensures
            match r {
                Ok(s) => amp_factor_u64 >= 1 && s.amp_factor == amp_factor_u64 as u128,
                Err(e) => amp_factor_u64 == 0 && e == SwapError::InvalidAmpFactor,
            },
    {
        if amp_factor_u64 == 0 {
            Err(SwapError::InvalidAmpFactor)
        } else {
            Ok(StableSwap { amp_factor: amp_factor_u64 as u128 })
        }
    }

    /// The invariant D of reserves `(amount_a, amount_b)`, or `None` where an
    /// intermediate leaves the working word or a divisor is zero.
    pub fn checked_compute_d(&self, amount_a: u128, amount_b: u128) -> (r: Option<u128>)
        ensures
            r is Some <==> d_fits(self.amp_factor as int, amount_a as int, amount_b as int),
            r is Some ==> r.unwrap() == invariant_d(
                self.amp_factor as int,
                amount_a as int,
                amount_b as int,
            ),
    {
        let sum_x = match amount_a.checked_add(amount_b) {
            Some(v) => v,
            None => return None,
        };
        if sum_x == 0 {
            return Some(0);
        }
        let lev = match mul_word(self.amp_factor, 2) {
            Some(v) if v != 0 => v,
            _ => return None,
        };
        let lev_sum = match mul_word(lev, sum_x) {
            Some(v) => v,
            None => return None,
        };
        let ghost a = amount_a as int;
        let ghost b = amount_b as int;
        let mut d = sum_x;
        let mut k: u32 = 128;
        while k > 0
            invariant
                a == amount_a as int,
                b == amount_b as int,
                lev >= 1,
                lev == leverage(self.amp_factor as int),
                fits(lev as int),
                sum_x == a + b,
                sum_x != 0,
                fits(lev * (a + b)),
                lev_sum == lev * (a + b),
                d_iterate(lev as int, a, b, d as int, k as nat) == d_iterate(
                    lev as int,
                    a,
                    b,
                    a + b,
                    128,
                ),
                d_iterate_fits(lev as int, a, b, d as int, k as nat) == d_iterate_fits(
                    lev as int,
                    a,
                    b,
                    a + b,
                    128,
                ),
            decreases k,
        {
            let next = match d_step(lev, lev_sum, amount_a, amount_b, d) {
                Some(v) => v,
                None => return None,
            };
            if word_distance(next, d) <= 1 {
                return Some(next);
            }
            d = next;
            k = k - 1;
        }
        Some(d)
    }

    /// Compute stable swap invariant (D)
    /// Equation:
    /// A * sum(x_i) * n**n + D = A * D * n**n + D**(n+1) / (n**n * prod(x_i))
    pub fn compute_d(&self, amount_a: u128, amount_b: u128) -> (r: u128)
        requires
            d_fits(self.amp_factor as int, amount_a as int, amount_b as int),
        ensures
            r == invariant_d(self.amp_factor as int, amount_a as int, amount_b as int),
            amount_a == 0 && amount_b == 0 ==> r == 0,
    {
        self.checked_compute_d(amount_a, amount_b).unwrap()
    }

    /// The reserve y that keeps the invariant at `d` when the other reserve is
    /// `x`, or `None` where an intermediate leaves the working word or a divisor
    /// is zero.
    pub fn checked_compute_y(&self, x: u128, d: u128) -> (r: Option<u128>)
        ensures
            r is Some <==> y_fits(self.amp_factor as int, x as int, d as int),
            r is Some ==> r.unwrap() == invariant_y(self.amp_factor as int, x as int, d as int),
    {
        let lev = match mul_word(self.amp_factor, 2) {
            Some(v) => v,
            None => return None,
        };
        let dd = match mul_word(d, d) {
            Some(v) => v,
            None => return None,
        };
        let ddd = match mul_word(dd, d) {
            Some(v) => v,
            None => return None,
        };
        let x2 = match mul_word(x, 2) {
            Some(v) => v,
            None => return None,
        };
        let x4 = match mul_word(x2, 2) {
            Some(v) => v,
            None => return None,
        };
        let c_den = match mul_word(x4, lev) {
            Some(v) if v != 0 => v,
            _ => return None,
        };
        if lev == 0 {
            return None;
        }
        let c = ddd / c_den;
        let b = match x.checked_add(d / lev) {
            Some(v) => v,
            None => return None,
        };
        let ghost amp = self.amp_factor as int;
        assert(c == y_c(amp, x as int, d as int));
        assert(b == y_b(amp, x as int, d as int));
        let mut y = d;
        let mut k: u32 = 128;
        while k > 0
            invariant
                c == y_c(amp, x as int, d as int),
                b == y_b(amp, x as int, d as int),
                amp == self.amp_factor as int,
                fits(lev as int),
                fits(d * d),
                fits(d * d * d),
                fits(x * 2),
                fits(x * 2 * 2),
                fits(x * 2 * 2 * lev),
                x * 2 * 2 * lev != 0,
                lev != 0,
                lev == leverage(amp),
                fits(b as int),
                y_iterate(c as int, b as int, d as int, y as int, k as nat) == y_iterate(
                    c as int,
                    b as int,
                    d as int,
                    d as int,
                    128,
                ),
                y_iterate_fits(c as int, b as int, d as int, y as int, k as nat)
                    == y_iterate_fits(c as int, b as int, d as int, d as int, 128),
            decreases k,
        {
            let next = match y_step(c, b, d, y) {
                Some(v) => v,
                None => return None,
            };
            if word_distance(next, y) <= 1 {
                return Some(next);
            }
            y = next;
            k = k - 1;
        }
        Some(y)
    }

    /// Compute swap amount `y` in proportion to `x`
    /// Solve for y:
    /// y**2 + y * (sum' - (A*n**n - 1) * D / (A * n**n)) = D ** (n + 1) / (n ** (2 * n) * prod' * A)
    /// y**2 + b*y = c
    pub fn compute_y(&self, x: u128, d: u128) -> (r: u128)
        requires
            y_fits(self.amp_factor as int, x as int, d as int),
        ensures
            r == invariant_y(self.amp_factor as int, x as int, d as int),
    {
        self.checked_compute_y(x, d).unwrap()
    }

    /// Calculate the withdrawal amount when withdrawing only one type of token
    /// Calculation:
    /// 1. Get current D
    /// 2. Solve Eqn against y_i for D - _token_amount
    pub fn compute_withdraw_one(
        &self,
        pool_token_amount: u64,
        pool_token_supply: u64,
        swap_base_amount: u64,  // Same denomination of token to be withdrawn
        swap_quote_amount: u64,  // Counter denomination of token to be withdrawn
        fee_numerator: u64,
        fee_denominator: u64,
    ) -> (r: Option<(u64, u64)>)
        ensures
            match r {
                Some((dy, dy_fee)) => withdraw_one_outcome(
                    self.amp_factor as int,
                    pool_token_amount as int,
                    pool_token_supply as int,
                    swap_base_amount as int,
                    swap_quote_amount as int,
                    fee_numerator as int,
                    fee_denominator as int,
                ) == Some((dy as int, dy_fee as int)),
                None => withdraw_one_outcome(
                    self.amp_factor as int,
                    pool_token_amount as int,
                    pool_token_supply as int,
                    swap_base_amount as int,
                    swap_quote_amount as int,
                    fee_numerator as int,
                    fee_denominator as int,
                ) is None,
            },
    {
        let p = pool_token_amount as u128;
        let supply = pool_token_supply as u128;
        let base = swap_base_amount as u128;
        let quote = swap_quote_amount as u128;
        let den = fee_denominator as u128;
        let d_0 = match self.checked_compute_d(base, quote) {
            Some(v) => v,
            None => return None,
        };
        let burned = match mul_word(p, d_0) {
            Some(v) if supply != 0 => v / supply,
            _ => return None,
        };
        if burned > d_0 {
            return None;
        }
        let d_1 = d_0 - burned;
        let new_y = match self.checked_compute_y(quote, d_1) {
            Some(v) => v,
            None => return None,
        };
        let fee = fee_numerator as u128 * 2 / 4;
        let base_scaled = match mul_word(base, d_1) {
            Some(v) if d_0 != 0 => v / d_0,
            _ => return None,
        };
        if new_y > base_scaled {
            return None;
        }
        let expected_base_amount = base_scaled - new_y;
        let quote_scaled = match mul_word(quote, d_1) {
            Some(v) => v / d_0,
            None => return None,
        };
        if quote_scaled > quote {
            return None;
        }
        let expected_quote_amount = quote - quote_scaled;
        let base_fee = match mul_word(expected_base_amount, fee) {
            Some(v) if den != 0 => v / den,
            _ => return None,
        };
        if base_fee > base {
            return None;
        }
        let new_base_amount = base - base_fee;
        let quote_fee = match mul_word(expected_quote_amount, fee) {
            Some(v) => v / den,
            None => return None,
        };
        if quote_fee > quote {
            return None;
        }
        let new_quote_amount = quote - quote_fee;
        let y_after = match self.checked_compute_y(new_quote_amount, d_1) {
            Some(v) => v,
            None => return None,
        };
        if y_after > new_base_amount || new_y > base {
            return None;
        }
        let dy = new_base_amount - y_after;
        let dy_0 = base - new_y;
        if dy > dy_0 {
            return None;
        }
        Some((dy as u64, (dy_0 - dy) as u64))
    }

    /// Compute SwapResult after an exchange
    pub fn swap_to(
        &self,
        source_amount: u128,
        swap_source_amount: u128,
        swap_destination_amount: u128,
        fee_numerator: u128,
        fee_denominator: u128,
    ) -> (r: Option<SwapResult>)
        ensures
            SwapResult::outcome_of(r) == swap_outcome(
                self.amp_factor as int,
                source_amount as int,
                swap_source_amount as int,
                swap_destination_amount as int,
                fee_numerator as int,
                fee_denominator as int,
            ),
    {
        let new_source_amount = match swap_source_amount.checked_add(source_amount) {
            Some(v) => v,
            None => return None,
        };
        let d = match self.checked_compute_d(swap_source_amount, swap_destination_amount) {
            Some(v) => v,
            None => return None,
        };
        let y = match self.checked_compute_y(new_source_amount, d) {
            Some(v) => v,
            None => return None,
        };
        if y >= swap_destination_amount {
            return None;
        }
        let dy = swap_destination_amount - y;
        let dy_fee = match mul_word(dy, fee_numerator) {
            Some(v) if fee_denominator != 0 => v / fee_denominator,
            _ => return None,
        };
        if dy_fee > dy {
            return None;
        }
        let amount_swapped = dy - dy_fee;
        let new_destination_amount = swap_destination_amount - amount_swapped;
        Some(SwapResult { new_source_amount, new_destination_amount, amount_swapped })
    }
}

/// Conversions for pool tokens, how much to deposit / withdraw, along with
/// proper initialization
pub struct PoolTokenConverter {
    /// Total supply
    pub supply: u128,
    /// Token A amount
    pub token_a: u128,
    /// Token B amount
    pub token_b: u128,
}

/// The share `floor(p * amount / supply)` of a reserve `amount` that `p` pool
/// tokens claim, or `None` where the product leaves the working word or the
/// supply is zero.
pub open spec fn rate_of(p: int, amount: int, supply: int) -> Option<int> {
    if fits(p * amount) && supply != 0 {
        Some(p * amount / supply)
    } else {
        None
    }
}

/// A possible word, as an integer.
pub open spec fn word_opt(r: Option<u128>) -> Option<int> {
    match r {
        Some(v) => Some(v as int),
        None => None,
    }
}

/// Where supply and reserve are equal, each pool token is worth exactly one
/// token of the reserve, as long as the product `p * supply` fits the word.
pub proof fn lemma_balanced_rate(p: u128, supply: u128)
    requires
        supply > 0,
        fits(p * supply),
    ensures
        rate_of(p as int, supply as int, supply as int) == Some(p as int),
{
    lemma_div_by_multiple(p as int, supply as int);
}

impl PoolTokenConverter {
    /// Create a converter based on existing market information
    pub fn new(supply: u128, token_a: u128, token_b: u128) -> (r: Self)
        ensures
            r.supply == supply,
            r.token_a == token_a,
            r.token_b == token_b,
    {
        Self { supply, token_a, token_b }
    }

    /// A tokens for pool tokens
    pub fn token_a_rate(&self, pool_tokens: u128) -> (r: Option<u128>)
        ensures
            word_opt(r) == rate_of(pool_tokens as int, self.token_a as int, self.supply as int),
    {
        match mul_word(pool_tokens, self.token_a) {
            Some(v) => v.checked_div(self.supply),
            None => None,
        }
    }

    /// B tokens for pool tokens
    pub fn token_b_rate(&self, pool_tokens: u128) -> (r: Option<u128>)
        ensures
            word_opt(r) == rate_of(pool_tokens as int, self.token_b as int, self.supply as int),
    {
        match mul_word(pool_tokens, self.token_b) {
            Some(v) => v.checked_div(self.supply),
            None => None,
        }
    }
}

} // verus!
