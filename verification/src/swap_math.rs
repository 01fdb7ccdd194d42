//! Swap-step math: token deltas for a price move, the price reached by an
//! input amount, one bounded step of a swap, and the search for the next
//! initialized tick in a page.
//!
//! Amounts and prices are exact wide-integer quotients: input amounts
//! round up, output amounts round down, and the price moved by an
//! exhausted budget is clamped so a step never overshoots its target.

use vstd::prelude::*;
use vstd::arithmetic::div_mod::lemma_fundamental_div_mod;
use crate::errors::LiquidityError;
use crate::full_math::{mul_div_floor, mul_div_ceil, mul_q64_div_prod, mul_u128, div_u320_u192, u256_val};
use crate::tick::TickArrayState;
use crate::tick_math::{Q64, MIN_SQRT_PRICE_X64};

verus! {

/// One in Q64.64, as an integer for specifications.
pub open spec fn q64_int() -> int {
    0x1_0000_0000_0000_0000
}

/// Token-0 amount for a move between two square-root prices (in either
/// order), as the exact division
/// `liquidity * (upper - lower) * 2^64 / (lower * upper)`, rounded up or
/// down.
pub open spec fn spec_amount_0_delta(
    sqrt_price_a: u128,
    sqrt_price_b: u128,
    liquidity: u128,
    round_up: bool,
) -> int {
    let lower: u128 = if sqrt_price_a < sqrt_price_b {
        sqrt_price_a
    } else {
        sqrt_price_b
    };
    let upper: u128 = if sqrt_price_a < sqrt_price_b {
        sqrt_price_b
    } else {
        sqrt_price_a
    };
    let num = liquidity * (upper - lower) * 0x1_0000_0000_0000_0000;
    let den = lower * upper;
    if round_up {
        (num + den - 1) / den
    } else {
        num / den
    }
}

/// Token-1 amount for a move between two square-root prices (in either
/// order): `liquidity * (upper - lower) / 2^64`, rounded up or down.
pub open spec fn spec_amount_1_delta(
    sqrt_price_a: u128,
    sqrt_price_b: u128,
    liquidity: u128,
    round_up: bool,
) -> int {
    let lower: u128 = if sqrt_price_a < sqrt_price_b {
        sqrt_price_a
    } else {
        sqrt_price_b
    };
    let upper: u128 = if sqrt_price_a < sqrt_price_b {
        sqrt_price_b
    } else {
        sqrt_price_a
    };
    if round_up {
        (liquidity * (upper - lower) + q64_int() - 1) / q64_int()
    } else {
        (liquidity * (upper - lower)) / q64_int()
    }
}

/// Token-0 amount needed or produced by a price move, exact to the wide
/// formula. Fails with `MathOverflow` exactly when the rounded amount
/// exceeds 64 bits.
pub fn get_amount_0_delta(
    sqrt_price_a: u128,
    sqrt_price_b: u128,
    liquidity: u128,
    round_up: bool,
) -> (r: Result<u64, LiquidityError>)
    requires
        sqrt_price_a >= 1,
        sqrt_price_b >= 1,
    ensures
        match r {
            Ok(a) => a == spec_amount_0_delta(sqrt_price_a, sqrt_price_b, liquidity, round_up),
            Err(e) => e == LiquidityError::MathOverflow && spec_amount_0_delta(
                sqrt_price_a,
                sqrt_price_b,
                liquidity,
                round_up,
            ) > u64::MAX,
        },
{
    let (sqrt_price_lower, sqrt_price_upper) = if sqrt_price_a < sqrt_price_b {
        (sqrt_price_a, sqrt_price_b)
    } else {
        (sqrt_price_b, sqrt_price_a)
    };
    let difference = sqrt_price_upper - sqrt_price_lower;
    let ghost num: int = liquidity * difference * 0x1_0000_0000_0000_0000;
    let ghost den: int = sqrt_price_lower * sqrt_price_upper;
    proof {
        lemma_prod_positive(sqrt_price_lower, sqrt_price_upper);
    }
    let (floor_amount, exact) = match mul_q64_div_prod(
        liquidity,
        difference,
        sqrt_price_lower,
        sqrt_price_upper,
    ) {
        Ok(v) => v,
        Err(e) => {
            proof {
                lemma_ceil_at_least_floor(num, den);
            }
            return Err(e);
        },
    };
    proof {
        lemma_ceil_from_floor(num, den, floor_amount as int);
    }
    let amount = if round_up && !exact {
        if floor_amount >= 0xffff_ffff_ffff_ffffu128 {
            return Err(LiquidityError::MathOverflow);
        }
        floor_amount + 1
    } else {
        floor_amount
    };
    if amount > 0xffff_ffff_ffff_ffffu128 {
        return Err(LiquidityError::MathOverflow);
    }
    Ok(amount as u64)
}

/// The product of two positive prices is positive.
proof fn lemma_prod_positive(a: u128, b: u128)
    requires
        a >= 1,
        b >= 1,
    ensures
        a * b >= 1,
{
    assert(a * b >= 1) by (nonlinear_arith)
        requires
            a >= 1,
            b >= 1,
    ;
}

/// The rounded-up quotient is the floored one, plus one when the division
/// left a remainder.
proof fn lemma_ceil_from_floor(num: int, den: int, floor_q: int)
    requires
        num >= 0,
        den >= 1,
        floor_q == num / den,
    ensures
        num % den == 0 ==> (num + den - 1) / den == floor_q,
        num % den != 0 ==> (num + den - 1) / den == floor_q + 1,
{
    vstd::arithmetic::div_mod::lemma_fundamental_div_mod(num, den);
    let m = num % den;
    assert((m == 0 ==> (num + den - 1) / den == floor_q) && (m != 0 ==> (num + den - 1) / den
        == floor_q + 1)) by (nonlinear_arith)
        requires
            num == den * floor_q + m,
            0 <= m < den,
            den >= 1,
            floor_q >= 0,
    ;
}

/// The rounded-up quotient is at least the floored one.
proof fn lemma_ceil_at_least_floor(num: int, den: int)
    requires
        num >= 0,
        den >= 1,
    ensures
        (num + den - 1) / den >= num / den,
{
    assert((num + den - 1) / den >= num / den) by (nonlinear_arith)
        requires
            num >= 0,
            den >= 1,
    ;
}

/// Token-1 amount needed or produced by a price move. Fails with
/// `MathOverflow` when the amount exceeds 64 bits.
pub fn get_amount_1_delta(
    sqrt_price_a: u128,
    sqrt_price_b: u128,
    liquidity: u128,
    round_up: bool,
) -> (r: Result<u64, LiquidityError>)
    ensures
        match r {
            Ok(a) => a == spec_amount_1_delta(sqrt_price_a, sqrt_price_b, liquidity, round_up),
            Err(e) => e == LiquidityError::MathOverflow && spec_amount_1_delta(
                sqrt_price_a,
                sqrt_price_b,
                liquidity,
                round_up,
            ) > u64::MAX,
        },
{
    let (sqrt_price_lower, sqrt_price_upper) = if sqrt_price_a < sqrt_price_b {
        (sqrt_price_a, sqrt_price_b)
    } else {
        (sqrt_price_b, sqrt_price_a)
    };
    let difference = sqrt_price_upper - sqrt_price_lower;
    let amount = if round_up {
        match mul_div_ceil(liquidity, difference, Q64) {
            Ok(v) => v,
            Err(e) => {
                return Err(e);
            },
        }
    } else {
        match mul_div_floor(liquidity, difference, Q64) {
            Ok(v) => v,
            Err(e) => {
                return Err(e);
            },
        }
    };
    if amount > 0xffff_ffff_ffff_ffffu128 {
        return Err(LiquidityError::MathOverflow);
    }
    Ok(amount as u64)
}

/// The square-root price after spending `amount_in` of token 0, moving the
/// price down: the exact wide quotient
/// `floor(L * 2^64 * sqrtP / (L * 2^64 + amount * sqrtP))`.
pub open spec fn spec_next_sqrt_price_down(
    sqrt_price: u128,
    liquidity: u128,
    amount_in: u64,
) -> int {
    (liquidity * 0x1_0000_0000_0000_0000 * sqrt_price)
        / (liquidity * 0x1_0000_0000_0000_0000 + amount_in * sqrt_price)
}

/// The square-root price after spending `amount_in` of token 1, moving the
/// price up: `sqrtP + floor(amount * 2^64 / L)`.
pub open spec fn spec_next_sqrt_price_up(
    sqrt_price: u128,
    liquidity: u128,
    amount_in: u64,
) -> int {
    sqrt_price + (amount_in * q64_int()) / (liquidity as int)
}

/// The square-root price reached by spending `amount_in` of the input
/// token, through 320-bit intermediates for the token-0 direction. Fails
/// with `MathOverflow` only when the upward price leaves 128 bits.
pub fn get_next_sqrt_price_from_input(
    sqrt_price: u128,
    liquidity: u128,
    amount_in: u64,
    zero_for_one: bool,
) -> (r: Result<u128, LiquidityError>)
    requires
        liquidity >= 1,
        sqrt_price >= 1,
    ensures
        zero_for_one ==> r is Ok,
        match r {
            Ok(p) => if zero_for_one {
                p == spec_next_sqrt_price_down(sqrt_price, liquidity, amount_in) && p
                    <= sqrt_price && (amount_in == 0 ==> p == sqrt_price)
            } else {
                p == spec_next_sqrt_price_up(sqrt_price, liquidity, amount_in) && p >= sqrt_price
            },
            Err(e) => e == LiquidityError::MathOverflow && !zero_for_one
                && spec_next_sqrt_price_up(sqrt_price, liquidity, amount_in) > u128::MAX,
        },
{
    if zero_for_one {
        // numerator L * sqrtP * 2^64 as three 128-bit limbs
        let (m1, m0) = mul_u128(liquidity, sqrt_price);
        let n2 = m1 / 0x1_0000_0000_0000_0000u128;
        let n1 = (m1 % 0x1_0000_0000_0000_0000u128) * 0x1_0000_0000_0000_0000u128 + m0
            / 0x1_0000_0000_0000_0000u128;
        let n0 = (m0 % 0x1_0000_0000_0000_0000u128) * 0x1_0000_0000_0000_0000u128;
        // denominator L * 2^64 + amount * sqrtP as a 192-bit pair
        let a_hi = liquidity / 0x1_0000_0000_0000_0000u128;
        let a_lo = (liquidity % 0x1_0000_0000_0000_0000u128) * 0x1_0000_0000_0000_0000u128;
        let (b_hi, b_lo) = mul_u128(amount_in as u128, sqrt_price);
        proof {
            lemma_next_down_setup(sqrt_price, liquidity, amount_in, m1, m0, n2, n1, n0, a_hi,
                a_lo, b_hi, b_lo);
        }
        let d_lo: u128;
        let carry: u128;
        if a_lo <= 0xffff_ffff_ffff_ffff_ffff_ffff_ffff_ffffu128 - b_lo {
            d_lo = a_lo + b_lo;
            carry = 0;
        } else {
            d_lo = a_lo - (0xffff_ffff_ffff_ffff_ffff_ffff_ffff_ffffu128 - b_lo) - 1;
            carry = 1;
        }
        let d_hi = a_hi + b_hi + carry;
        proof {
            assert(u256_val(d_hi, d_lo) == liquidity * 0x1_0000_0000_0000_0000 + amount_in
                * sqrt_price);
            lemma_next_down_fits(sqrt_price, liquidity, amount_in, n2, n1, n0, d_hi, d_lo);
        }
        let (q, r_hi, r_lo) = div_u320_u192(n2, n1, n0, d_hi, d_lo);
        proof {
            lemma_next_down_value(sqrt_price, liquidity, amount_in, q, u256_val(r_hi, r_lo),
                u256_val(d_hi, d_lo));
        }
        Ok(q)
    } else {
        let delta = ((amount_in as u128) * Q64) / liquidity;
        match sqrt_price.checked_add(delta) {
            Some(v) => Ok(v),
            None => Err(LiquidityError::MathOverflow),
        }
    }
}

/// Limb identities for the wide numerator and denominator of the token-0
/// price update.
proof fn lemma_next_down_setup(
    sqrt_price: u128,
    liquidity: u128,
    amount_in: u64,
    m1: u128,
    m0: u128,
    n2: u128,
    n1: u128,
    n0: u128,
    a_hi: u128,
    a_lo: u128,
    b_hi: u128,
    b_lo: u128,
)
    requires
        liquidity >= 1,
        sqrt_price >= 1,
        u256_val(m1, m0) == liquidity * sqrt_price,
        n2 == m1 / 0x1_0000_0000_0000_0000,
        n1 == (m1 % 0x1_0000_0000_0000_0000) * 0x1_0000_0000_0000_0000 + m0
            / 0x1_0000_0000_0000_0000,
        n0 == (m0 % 0x1_0000_0000_0000_0000) * 0x1_0000_0000_0000_0000,
        a_hi == liquidity / 0x1_0000_0000_0000_0000,
        a_lo == (liquidity % 0x1_0000_0000_0000_0000) * 0x1_0000_0000_0000_0000,
        u256_val(b_hi, b_lo) == amount_in * sqrt_price,
    ensures
        n2 * 0x1_0000_0000_0000_0000_0000_0000_0000_0000
            * 0x1_0000_0000_0000_0000_0000_0000_0000_0000 + n1
            * 0x1_0000_0000_0000_0000_0000_0000_0000_0000 + n0 == liquidity
            * 0x1_0000_0000_0000_0000 * sqrt_price,
        u256_val(a_hi, a_lo) == liquidity * 0x1_0000_0000_0000_0000,
        b_hi < 0x1_0000_0000_0000_0000,
        a_hi < 0x1_0000_0000_0000_0000,
        n2 < 0x1_0000_0000_0000_0000,
{
    let w: int = 0x1_0000_0000_0000_0000_0000_0000_0000_0000int;
    let k: int = 0x1_0000_0000_0000_0000int;
    let m1i: int = m1 as int;
    let m0i: int = m0 as int;
    assert(n2 * w * w + n1 * w + n0 == (m1i * w + m0i) * k) by (nonlinear_arith)
        requires
            n2 == m1i / k,
            n1 == (m1i % k) * k + m0i / k,
            n0 == (m0i % k) * k,
            m1i == k * (m1i / k) + m1i % k,
            m0i == k * (m0i / k) + m0i % k,
            w == k * k,
    ;
    assert((m1i * w + m0i) * k == liquidity * k * sqrt_price) by (nonlinear_arith)
        requires
            m1i * w + m0i == liquidity * sqrt_price,
    ;
    assert(b_hi < 0x1_0000_0000_0000_0000) by (nonlinear_arith)
        requires
            b_hi * w + b_lo == amount_in * sqrt_price,
            b_lo >= 0,
            amount_in < 0x1_0000_0000_0000_0000,
            sqrt_price < w,
            w == k * k,
    ;
    assert(m1i < w) by (nonlinear_arith)
        requires
            m1i * w + m0i == liquidity * sqrt_price,
            m0i >= 0,
            0 <= liquidity < w,
            0 <= sqrt_price < w,
            w >= 1,
    ;
    assert(n2 < 0x1_0000_0000_0000_0000) by (nonlinear_arith)
        requires
            n2 == m1i / k,
            0 <= m1i < w,
            m1i == k * (m1i / k) + m1i % k,
            0 <= m1i % k,
            w == k * k,
            k == 0x1_0000_0000_0000_0000,
    ;
}

/// The quotient of the wide price update fits in 128 bits.
proof fn lemma_next_down_fits(
    sqrt_price: u128,
    liquidity: u128,
    amount_in: u64,
    n2: u128,
    n1: u128,
    n0: u128,
    d_hi: u128,
    d_lo: u128,
)
    requires
        liquidity >= 1,
        sqrt_price >= 1,
        n2 * 0x1_0000_0000_0000_0000_0000_0000_0000_0000
            * 0x1_0000_0000_0000_0000_0000_0000_0000_0000 + n1
            * 0x1_0000_0000_0000_0000_0000_0000_0000_0000 + n0 == liquidity
            * 0x1_0000_0000_0000_0000 * sqrt_price,
        u256_val(d_hi, d_lo) == liquidity * 0x1_0000_0000_0000_0000 + amount_in * sqrt_price,
    ensures
        u256_val(d_hi, d_lo) >= 1,
        u256_val(n2, n1) < u256_val(d_hi, d_lo),
{
    let w: int = 0x1_0000_0000_0000_0000_0000_0000_0000_0000int;
    let a: int = liquidity * 0x1_0000_0000_0000_0000;
    let b: int = amount_in * sqrt_price;
    assert(a >= 1 && b >= 0) by (nonlinear_arith)
        requires
            liquidity >= 1,
            a == liquidity * 0x1_0000_0000_0000_0000,
            b == amount_in * sqrt_price,
            amount_in >= 0,
            sqrt_price >= 1,
    ;
    assert(a * sqrt_price < (a + b) * w) by (nonlinear_arith)
        requires
            a >= 1,
            b >= 0,
            sqrt_price < w,
    ;
    assert(u256_val(n2, n1) < u256_val(d_hi, d_lo)) by (nonlinear_arith)
        requires
            n2 * w * w + n1 * w + n0 == a * sqrt_price,
            a * sqrt_price < (a + b) * w,
            u256_val(n2, n1) == n2 * w + n1,
            u256_val(d_hi, d_lo) == a + b,
            n0 >= 0,
            w >= 1,
    ;
}

/// The exact quotient of the token-0 price update, and its bounds.
proof fn lemma_next_down_value(
    sqrt_price: u128,
    liquidity: u128,
    amount_in: u64,
    q: u128,
    rem: int,
    den: int,
)
    requires
        liquidity >= 1,
        sqrt_price >= 1,
        den == liquidity * 0x1_0000_0000_0000_0000 + amount_in * sqrt_price,
        q * den + rem == liquidity * 0x1_0000_0000_0000_0000 * sqrt_price,
        0 <= rem < den,
    ensures
        q == spec_next_sqrt_price_down(sqrt_price, liquidity, amount_in),
        q <= sqrt_price,
        amount_in == 0 ==> q == sqrt_price,
{
    let a: int = liquidity * 0x1_0000_0000_0000_0000;
    assert(a >= 1) by (nonlinear_arith)
        requires
            liquidity >= 1,
            a == liquidity * 0x1_0000_0000_0000_0000,
    ;
    assert(q == (a * sqrt_price) / den) by (nonlinear_arith)
        requires
            q * den + rem == a * sqrt_price,
            0 <= rem < den,
            q >= 0,
            den >= 1,
    ;
    assert(q <= sqrt_price) by (nonlinear_arith)
        requires
            q * den + rem == a * sqrt_price,
            0 <= rem,
            den >= a >= 1,
            q >= 0,
            sqrt_price >= 1,
    ;
    if amount_in == 0 {
        assert(q == sqrt_price) by (nonlinear_arith)
            requires
                q * den + rem == a * sqrt_price,
                0 <= rem < den,
                den == a,
                a >= 1,
                q >= 0,
        ;
    }
}

/// The fee-free input budget: `floor(amount * (10^6 - fee_rate) / 10^6)`.
pub open spec fn spec_fee_budget(amount_remaining: u64, fee_rate: u32) -> int {
    (amount_remaining * (1_000_000 - fee_rate)) / 1_000_000
}

/// The input needed to move the price all the way to the target, rounded
/// up.
pub open spec fn spec_max_amount_in(
    sqrt_price_current: u128,
    sqrt_price_target: u128,
    liquidity: u128,
    zero_for_one: bool,
) -> int {
    if zero_for_one {
        spec_amount_0_delta(sqrt_price_target, sqrt_price_current, liquidity, true)
    } else {
        spec_amount_1_delta(sqrt_price_current, sqrt_price_target, liquidity, true)
    }
}

/// Whether the fee-free budget reaches the target price.
pub open spec fn spec_step_reaches(
    sqrt_price_current: u128,
    sqrt_price_target: u128,
    liquidity: u128,
    amount_remaining: u64,
    fee_rate: u32,
    zero_for_one: bool,
) -> bool {
    spec_fee_budget(amount_remaining, fee_rate) >= spec_max_amount_in(
        sqrt_price_current,
        sqrt_price_target,
        liquidity,
        zero_for_one,
    )
}

/// The price a swap step ends at: the target when the budget covers it,
/// otherwise the price the budget buys, clamped so it never overshoots the
/// target.
pub open spec fn spec_step_next_price(
    sqrt_price_current: u128,
    sqrt_price_target: u128,
    liquidity: u128,
    amount_remaining: u64,
    fee_rate: u32,
    zero_for_one: bool,
) -> int {
    if spec_step_reaches(sqrt_price_current, sqrt_price_target, liquidity, amount_remaining,
        fee_rate, zero_for_one) {
        sqrt_price_target as int
    } else {
        let budget = spec_fee_budget(amount_remaining, fee_rate);
        if zero_for_one {
            let p = spec_next_sqrt_price_down(sqrt_price_current, liquidity, budget as u64);
            if p < sqrt_price_target {
                sqrt_price_target as int
            } else {
                p
            }
        } else {
            let p = spec_next_sqrt_price_up(sqrt_price_current, liquidity, budget as u64);
            if p > sqrt_price_target {
                sqrt_price_target as int
            } else {
                p
            }
        }
    }
}

/// The input a swap step consumes, before the fee.
pub open spec fn spec_step_amount_in(
    sqrt_price_current: u128,
    sqrt_price_target: u128,
    liquidity: u128,
    amount_remaining: u64,
    fee_rate: u32,
    zero_for_one: bool,
) -> int {
    if spec_step_reaches(sqrt_price_current, sqrt_price_target, liquidity, amount_remaining,
        fee_rate, zero_for_one) {
        spec_max_amount_in(sqrt_price_current, sqrt_price_target, liquidity, zero_for_one)
    } else {
        spec_fee_budget(amount_remaining, fee_rate)
    }
}

/// The output a swap step produces, rounded down.
pub open spec fn spec_step_amount_out(
    sqrt_price_current: u128,
    sqrt_price_target: u128,
    liquidity: u128,
    amount_remaining: u64,
    fee_rate: u32,
    zero_for_one: bool,
) -> int {
    let next = spec_step_next_price(sqrt_price_current, sqrt_price_target, liquidity,
        amount_remaining, fee_rate, zero_for_one);
    if zero_for_one {
        spec_amount_1_delta(next as u128, sqrt_price_current, liquidity, false)
    } else {
        spec_amount_0_delta(sqrt_price_current, next as u128, liquidity, false)
    }
}

/// The fee a swap step charges: the rounded-up proportional fee when the
/// target is reached, the whole unspent remainder otherwise.
pub open spec fn spec_step_fee(
    sqrt_price_current: u128,
    sqrt_price_target: u128,
    liquidity: u128,
    amount_remaining: u64,
    fee_rate: u32,
    zero_for_one: bool,
) -> int {
    if spec_step_reaches(sqrt_price_current, sqrt_price_target, liquidity, amount_remaining,
        fee_rate, zero_for_one) {
        let amount_in = spec_max_amount_in(sqrt_price_current, sqrt_price_target, liquidity,
            zero_for_one);
        (amount_in * fee_rate + 999_999) / 1_000_000
    } else {
        amount_remaining - spec_fee_budget(amount_remaining, fee_rate)
    }
}

/// An input bounded by the fee-free budget, plus its rounded-up fee, never
/// exceeds the remaining amount.
proof fn lemma_step_conservation(amount_remaining: u64, fee_rate: u32, amount_in: int)
    requires
        fee_rate <= 1_000_000,
        0 <= amount_in <= spec_fee_budget(amount_remaining, fee_rate),
    ensures
        amount_in + (amount_in * fee_rate + 999_999) / 1_000_000 <= amount_remaining,
{
    let c: int = 1_000_000 - fee_rate;
    let b: int = spec_fee_budget(amount_remaining, fee_rate);
    lemma_fundamental_div_mod(amount_remaining * c, 1_000_000);
    assert(1_000_000 * b <= amount_remaining * c);
    assert(b * (1_000_000 + fee_rate) <= amount_remaining * 1_000_000) by (nonlinear_arith)
        requires
            1_000_000 * b <= amount_remaining * c,
            c == 1_000_000 - fee_rate,
            0 <= fee_rate <= 1_000_000,
            b >= 0,
            amount_remaining >= 0,
    ;
    assert(amount_in * fee_rate <= b * fee_rate) by (nonlinear_arith)
        requires
            0 <= amount_in <= b,
            fee_rate >= 0,
    ;
    assert(amount_in + (amount_in * fee_rate + 999_999) / 1_000_000 <= amount_remaining)
        by (nonlinear_arith)
        requires
            amount_in * fee_rate <= b * fee_rate,
            b * (1_000_000 + fee_rate) <= amount_remaining * 1_000_000,
            0 <= amount_in <= b,
            0 <= fee_rate <= 1_000_000,
    ;
}

/// One bounded step of a swap: how far the price moves toward the target,
/// what goes in, what comes out, and the fee charged. Fails with
/// `MathOverflow` when a price product, a price denominator, or the output
/// amount exceeds its width.
pub fn compute_swap_step(
    sqrt_price_current: u128,
    sqrt_price_target: u128,
    liquidity: u128,
    amount_remaining: u64,
    fee_rate: u32,
    zero_for_one: bool,
) -> (r: Result<(u128, u64, u64, u64), LiquidityError>)
    requires
        fee_rate <= 1_000_000,
        sqrt_price_current >= MIN_SQRT_PRICE_X64,
        sqrt_price_target >= MIN_SQRT_PRICE_X64,
        zero_for_one ==> sqrt_price_target <= sqrt_price_current,
        !zero_for_one ==> sqrt_price_current <= sqrt_price_target,
    ensures
        match r {
            Ok(step) => {
                &&& step.0 == spec_step_next_price(sqrt_price_current, sqrt_price_target,
                    liquidity, amount_remaining, fee_rate, zero_for_one)
                &&& step.1 == spec_step_amount_in(sqrt_price_current, sqrt_price_target,
                    liquidity, amount_remaining, fee_rate, zero_for_one)
                &&& step.2 == spec_step_amount_out(sqrt_price_current, sqrt_price_target,
                    liquidity, amount_remaining, fee_rate, zero_for_one)
                &&& step.3 == spec_step_fee(sqrt_price_current, sqrt_price_target, liquidity,
                    amount_remaining, fee_rate, zero_for_one)
                &&& step.1 + step.3 <= amount_remaining
                &&& (zero_for_one ==> sqrt_price_target <= step.0 <= sqrt_price_current)
                &&& (!zero_for_one ==> sqrt_price_current <= step.0 <= sqrt_price_target)
                &&& spec_step_amount_out(sqrt_price_current, sqrt_price_target, liquidity,
                    amount_remaining, fee_rate, zero_for_one) <= u64::MAX
            },
            Err(e) => {
                &&& e == LiquidityError::MathOverflow
                &&& spec_step_amount_out(sqrt_price_current, sqrt_price_target, liquidity,
                    amount_remaining, fee_rate, zero_for_one) > u64::MAX
            },
        },
{
    let ghost reaches = spec_step_reaches(sqrt_price_current, sqrt_price_target, liquidity,
        amount_remaining, fee_rate, zero_for_one);
    // the fee-free budget
    let fee_complement: u64 = 1_000_000u64 - (fee_rate as u64);
    proof {
        assert(amount_remaining * fee_complement
            < 0x1_0000_0000_0000_0000_0000_0000_0000_0000) by (nonlinear_arith)
            requires
                fee_complement <= 1_000_000,
                amount_remaining < 0x1_0000_0000_0000_0000,
        ;
    }
    let budget_wide: u128 = ((amount_remaining as u128) * (fee_complement as u128)) / 1_000_000;
    proof {
        assert(budget_wide <= amount_remaining) by (nonlinear_arith)
            requires
                budget_wide == (amount_remaining * fee_complement) / 1_000_000,
                0 <= fee_complement <= 1_000_000,
                amount_remaining >= 0,
        ;
    }
    let budget: u64 = budget_wide as u64;
    // input needed to reach the target
    let max_in_fits: Option<u64> = if zero_for_one {
        match get_amount_0_delta(sqrt_price_target, sqrt_price_current, liquidity, true) {
            Ok(v) => Some(v),
            Err(_) => None,
        }
    } else {
        match get_amount_1_delta(sqrt_price_current, sqrt_price_target, liquidity, true) {
            Ok(v) => Some(v),
            Err(_) => None,
        }
    };
    let ghost spec_max = spec_max_amount_in(sqrt_price_current, sqrt_price_target, liquidity,
        zero_for_one);
    let sqrt_price_next: u128;
    let amount_in: u64;
    let fee_amount: u64;
    match max_in_fits {
        Some(max_in) if budget >= max_in => {
            // the step reaches the target exactly
            sqrt_price_next = sqrt_price_target;
            amount_in = max_in;
            proof {
                assert(max_in * fee_rate + 999_999
                    < 0x1_0000_0000_0000_0000_0000_0000_0000_0000) by (nonlinear_arith)
                    requires
                        fee_rate <= 1_000_000,
                        max_in < 0x1_0000_0000_0000_0000,
                ;
            }
            let fee_wide: u128 = ((max_in as u128) * (fee_rate as u128) + 999_999) / 1_000_000;
            proof {
                assert(fee_wide <= max_in) by (nonlinear_arith)
                    requires
                        fee_wide == (max_in * fee_rate + 999_999) / 1_000_000,
                        0 <= fee_rate <= 1_000_000,
                        max_in >= 0,
                ;
                lemma_step_conservation(amount_remaining, fee_rate, max_in as int);
            }
            fee_amount = fee_wide as u64;
        },
        _ => {
            // the budget is exhausted before the target
            proof {
                if liquidity == 0 {
                    assert(spec_max == 0) by (nonlinear_arith)
                        requires
                            spec_max == spec_max_amount_in(sqrt_price_current, sqrt_price_target,
                                0, zero_for_one),
                            sqrt_price_current >= 1,
                            sqrt_price_target >= 1,
                            zero_for_one ==> sqrt_price_target <= sqrt_price_current,
                            !zero_for_one ==> sqrt_price_current <= sqrt_price_target,
                    ;
                }
                assert(liquidity >= 1);
                assert(!reaches);
            }
            let computed = match get_next_sqrt_price_from_input(
                sqrt_price_current,
                liquidity,
                budget,
                zero_for_one,
            ) {
                Ok(v) => Some(v),
                Err(_) => None,
            };
            if zero_for_one {
                sqrt_price_next = match computed {
                    Some(p) => if p < sqrt_price_target {
                        sqrt_price_target
                    } else {
                        p
                    },
                    None => {
                        proof {
                            assert(false);
                        }
                        sqrt_price_target
                    },
                };
            } else {
                // an overflowing sum lies far beyond the target, so the
                // clamp would pick the target anyway
                sqrt_price_next = match computed {
                    Some(p) => if p > sqrt_price_target {
                        sqrt_price_target
                    } else {
                        p
                    },
                    None => sqrt_price_target,
                };
            }
            amount_in = budget;
            fee_amount = amount_remaining - budget;
        },
    }
    // output implied by the realized price move, rounded down
    let amount_out = if zero_for_one {
        match get_amount_1_delta(sqrt_price_next, sqrt_price_current, liquidity, false) {
            Ok(v) => v,
            Err(e) => {
                return Err(e);
            },
        }
    } else {
        match get_amount_0_delta(sqrt_price_current, sqrt_price_next, liquidity, false) {
            Ok(v) => v,
            Err(e) => {
                return Err(e);
            },
        }
    };
    Ok((sqrt_price_next, amount_in, amount_out, fee_amount))
}



/// A slot's tick lies within the page's tick range.
pub(crate) proof fn lemma_slot_tick_bounds(start: int, spacing: int, i: int)
    requires
        1 <= spacing <= 0xffff,
        0 <= i < 60,
    ensures
        0 <= i * spacing <= 59 * spacing,
        i * spacing < 0x40_0000,
{
    assert(0 <= i * spacing <= 59 * spacing && i * spacing < 0x40_0000) by (nonlinear_arith)
        requires
            1 <= spacing <= 0xffff,
            0 <= i < 60,
    ;
}

/// The next initialized tick at or below (`zero_for_one`) or strictly
/// above (`!zero_for_one`) the slot holding `current_tick`, within this
/// page. When no slot qualifies, the page-boundary slot in the search
/// direction is returned with `false`; continuing in an adjacent page is
/// the caller's concern.
pub fn find_next_initialized_tick(
    tick_array: &TickArrayState,
    current_tick: i32,
    tick_spacing: u16,
    zero_for_one: bool,
) -> (r: Option<(i32, usize, bool)>)
    requires
        tick_array.wf(tick_spacing),
        tick_array.start_tick_index <= current_tick,
        current_tick < tick_array.start_tick_index + 60 * (tick_spacing as int),
    ensures
        ({
            let cur_slot = (current_tick - tick_array.start_tick_index) / (tick_spacing as int);
            match r {
                Some(res) => {
                    let (tick, slot, found) = res;
                    &&& slot < 60
                    &&& tick == tick_array.spec_tick_of_slot(slot as int, tick_spacing)
                    &&& (if zero_for_one {
                        if found {
                            &&& slot <= cur_slot
                            &&& tick_array.ticks[slot as int].initialized
                            &&& forall|j: int| slot < j <= cur_slot
                                ==> !#[trigger] tick_array.ticks[j].initialized
                        } else {
                            &&& slot == 0
                            &&& forall|j: int| 0 <= j <= cur_slot
                                ==> !#[trigger] tick_array.ticks[j].initialized
                        }
                    } else {
                        if found {
                            &&& cur_slot < slot
                            &&& tick_array.ticks[slot as int].initialized
                            &&& forall|j: int| cur_slot < j < slot
                                ==> !#[trigger] tick_array.ticks[j].initialized
                        } else {
                            &&& slot == 59
                            &&& forall|j: int| cur_slot < j < 60
                                ==> !#[trigger] tick_array.ticks[j].initialized
                        }
                    })
                },
                None => false,
            }
        }),
{
    let offset = (current_tick - tick_array.start_tick_index) as u32;
    let s = tick_spacing as u32;
    let cur_slot = (offset / s) as usize;
    proof {
        assert(cur_slot < 60) by (nonlinear_arith)
            requires
                cur_slot == offset as int / (s as int),
                offset < 60 * (s as int),
                s >= 1,
                offset >= 0,
        ;
    }
    if zero_for_one {
        let mut i: usize = cur_slot + 1;
        while i > 0
            invariant
                zero_for_one,
                i <= cur_slot + 1,
                cur_slot < 60,
                tick_array.wf(tick_spacing),
                cur_slot == (current_tick - tick_array.start_tick_index) / (tick_spacing as int),
                forall|j: int| i <= j <= cur_slot ==> !#[trigger] tick_array.ticks[j].initialized,
            decreases i,
        {
            i = i - 1;
            if tick_array.ticks[i].initialized {
                proof {
                    lemma_slot_tick_bounds(
                        tick_array.start_tick_index as int,
                        tick_spacing as int,
                        i as int,
                    );
                }
                let tick = tick_array.start_tick_index + (i as i32) * (tick_spacing as i32);
                return Some((tick, i, true));
            }
        }
        Some((tick_array.start_tick_index, 0, false))
    } else {
        let mut i: usize = cur_slot + 1;
        while i < 60
            invariant
                !zero_for_one,
                cur_slot < i <= 60,
                cur_slot < 60,
                tick_array.wf(tick_spacing),
                cur_slot == (current_tick - tick_array.start_tick_index) / (tick_spacing as int),
                forall|j: int| cur_slot < j < i ==> !#[trigger] tick_array.ticks[j].initialized,
            decreases 60 - i,
        {
            if tick_array.ticks[i].initialized {
                proof {
                    lemma_slot_tick_bounds(
                        tick_array.start_tick_index as int,
                        tick_spacing as int,
                        i as int,
                    );
                }
                let tick = tick_array.start_tick_index + (i as i32) * (tick_spacing as i32);
                return Some((tick, i, true));
            }
            i = i + 1;
        }
        let tick = tick_array.start_tick_index + 59i32 * (tick_spacing as i32);
        Some((tick, 59, false))
    }
}

} // verus!
