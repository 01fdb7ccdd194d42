//! Conversions between liquidity and token amounts over a square-root price
//! range, derived from `L = dx * sqrtL * sqrtU / (sqrtU - sqrtL)` and
//! `L = dy / (sqrtU - sqrtL)`, scaled by 2^64. All divisions round down;
//! quantities that do not fit their width fail with `MathOverflow`.

use vstd::prelude::*;
use crate::errors::LiquidityError;
use crate::full_math::{mul_div_floor, mul_q64_div_prod};
use crate::tick_math::Q64;

verus! {

/// The Q64.64 product of two square-root prices: `floor(l * u / 2^64)`.
pub open spec fn spec_price_product(sqrt_price_lower: u128, sqrt_price_upper: u128) -> int {
    (sqrt_price_lower * sqrt_price_upper) / 0x1_0000_0000_0000_0000
}

/// Liquidity bought by `amount_0` of token 0 over the range:
/// `floor(amount_0 * floor(l * u / 2^64) / (u - l))`.
pub open spec fn spec_liquidity_from_amount_0(
    sqrt_price_lower: u128,
    sqrt_price_upper: u128,
    amount_0: u64,
) -> int {
    (amount_0 * spec_price_product(sqrt_price_lower, sqrt_price_upper))
        / (sqrt_price_upper - sqrt_price_lower)
}

/// Liquidity bought by `amount_1` of token 1 over the range:
/// `floor(amount_1 * 2^64 / (u - l))`.
pub open spec fn spec_liquidity_from_amount_1(
    sqrt_price_lower: u128,
    sqrt_price_upper: u128,
    amount_1: u64,
) -> int {
    (amount_1 * 0x1_0000_0000_0000_0000) / (sqrt_price_upper - sqrt_price_lower)
}

/// Token-0 amount backing `liquidity` over the range, as the exact
/// round-down division: `floor(liquidity * (u - l) * 2^64 / (l * u))`.
pub open spec fn spec_amount_0_from_liquidity(
    sqrt_price_lower: u128,
    sqrt_price_upper: u128,
    liquidity: u128,
) -> int {
    (liquidity * (sqrt_price_upper - sqrt_price_lower) * 0x1_0000_0000_0000_0000)
        / (sqrt_price_lower * sqrt_price_upper)
}

/// Token-1 amount backing `liquidity` over the range:
/// `floor(liquidity * (u - l) / 2^64)`.
pub open spec fn spec_amount_1_from_liquidity(
    sqrt_price_lower: u128,
    sqrt_price_upper: u128,
    liquidity: u128,
) -> int {
    (liquidity * (sqrt_price_upper - sqrt_price_lower)) / 0x1_0000_0000_0000_0000
}

/// Liquidity that `amount_0` of token 0 provides over
/// `[sqrt_price_lower, sqrt_price_upper]`. Fails with `InvalidPriceRange`
/// when the range is empty or inverted, and with `MathOverflow` when an
/// intermediate value exceeds 128 bits.
pub fn get_liquidity_from_amount_0(
    sqrt_price_lower: u128,
    sqrt_price_upper: u128,
    amount_0: u64,
) -> (r: Result<u128, LiquidityError>)
    ensures
        sqrt_price_upper <= sqrt_price_lower ==> r == Err::<u128, LiquidityError>(
            LiquidityError::InvalidPriceRange,
        ),
        sqrt_price_upper > sqrt_price_lower ==> match r {
            Ok(l) => spec_price_product(sqrt_price_lower, sqrt_price_upper)
                < 0x1_0000_0000_0000_0000_0000_0000_0000_0000
                && l == spec_liquidity_from_amount_0(sqrt_price_lower, sqrt_price_upper, amount_0),
            Err(e) => e == LiquidityError::MathOverflow
                && (spec_price_product(sqrt_price_lower, sqrt_price_upper)
                    >= 0x1_0000_0000_0000_0000_0000_0000_0000_0000
                    || spec_liquidity_from_amount_0(sqrt_price_lower, sqrt_price_upper, amount_0)
                        >= 0x1_0000_0000_0000_0000_0000_0000_0000_0000),
        },
{
    if sqrt_price_upper <= sqrt_price_lower {
        return Err(LiquidityError::InvalidPriceRange);
    }
    let intermediate = match mul_div_floor(sqrt_price_lower, sqrt_price_upper, Q64) {
        Ok(v) => v,
        Err(e) => {
            return Err(e);
        },
    };
    let difference = sqrt_price_upper - sqrt_price_lower;
    match mul_div_floor(amount_0 as u128, intermediate, difference) {
        Ok(l) => Ok(l),
        Err(e) => Err(e),
    }
}

/// Liquidity that `amount_1` of token 1 provides over
/// `[sqrt_price_lower, sqrt_price_upper]`. Fails with `InvalidPriceRange`
/// when the range is empty or inverted.
pub fn get_liquidity_from_amount_1(
    sqrt_price_lower: u128,
    sqrt_price_upper: u128,
    amount_1: u64,
) -> (r: Result<u128, LiquidityError>)
    ensures
        sqrt_price_upper <= sqrt_price_lower ==> r == Err::<u128, LiquidityError>(
            LiquidityError::InvalidPriceRange,
        ),
        sqrt_price_upper > sqrt_price_lower ==> r == Ok::<u128, LiquidityError>(
            spec_liquidity_from_amount_1(sqrt_price_lower, sqrt_price_upper, amount_1) as u128,
        ),
{
    if sqrt_price_upper <= sqrt_price_lower {
        return Err(LiquidityError::InvalidPriceRange);
    }
    let difference = sqrt_price_upper - sqrt_price_lower;
    let liquidity = ((amount_1 as u128) * Q64) / difference;
    proof {
        assert(spec_liquidity_from_amount_1(sqrt_price_lower, sqrt_price_upper, amount_1)
            < 0x1_0000_0000_0000_0000_0000_0000_0000_0000) by (nonlinear_arith)
            requires
                difference >= 1,
                amount_1 < 0x1_0000_0000_0000_0000,
                spec_liquidity_from_amount_1(sqrt_price_lower, sqrt_price_upper, amount_1)
                    == (amount_1 * 0x1_0000_0000_0000_0000) / (difference as int),
        ;
    }
    Ok(liquidity)
}

/// Token-0 amount owed for `liquidity` over
/// `[sqrt_price_lower, sqrt_price_upper]`, as the exact round-down
/// division with wide intermediates. Fails with `InvalidPriceRange` when
/// the range is empty or inverted, and with `MathOverflow` exactly when
/// the amount exceeds 64 bits.
pub fn get_amounts_0_from_liquidity(
    sqrt_price_lower: u128,
    sqrt_price_upper: u128,
    liquidity: u128,
) -> (r: Result<u64, LiquidityError>)
    requires
        sqrt_price_lower >= 1,
    ensures
        sqrt_price_upper <= sqrt_price_lower ==> r == Err::<u64, LiquidityError>(
            LiquidityError::InvalidPriceRange,
        ),
        sqrt_price_upper > sqrt_price_lower ==> match r {
            Ok(a) => a == spec_amount_0_from_liquidity(sqrt_price_lower, sqrt_price_upper,
                liquidity),
            Err(e) => e == LiquidityError::MathOverflow && spec_amount_0_from_liquidity(
                sqrt_price_lower,
                sqrt_price_upper,
                liquidity,
            ) > u64::MAX,
        },
{
    if sqrt_price_upper <= sqrt_price_lower {
        return Err(LiquidityError::InvalidPriceRange);
    }
    let difference = sqrt_price_upper - sqrt_price_lower;
    let amount = match mul_q64_div_prod(liquidity, difference, sqrt_price_lower,
        sqrt_price_upper) {
        Ok(v) => v.0,
        Err(e) => {
            return Err(e);
        },
    };
    if amount > 0xffff_ffff_ffff_ffffu128 {
        return Err(LiquidityError::MathOverflow);
    }
    Ok(amount as u64)
}

/// Token-1 amount owed for `liquidity` over
/// `[sqrt_price_lower, sqrt_price_upper]`, rounded down. Fails with
/// `InvalidPriceRange` when the range is empty or inverted, and with
/// `MathOverflow` when the amount exceeds 64 bits.
pub fn get_amounts_1_from_liquidity(
    sqrt_price_lower: u128,
    sqrt_price_upper: u128,
    liquidity: u128,
) -> (r: Result<u64, LiquidityError>)
    ensures
        sqrt_price_upper <= sqrt_price_lower ==> r == Err::<u64, LiquidityError>(
            LiquidityError::InvalidPriceRange,
        ),
        sqrt_price_upper > sqrt_price_lower ==> match r {
            Ok(a) => a == spec_amount_1_from_liquidity(
                sqrt_price_lower,
                sqrt_price_upper,
                liquidity,
            ),
            Err(e) => e == LiquidityError::MathOverflow
                && spec_amount_1_from_liquidity(sqrt_price_lower, sqrt_price_upper, liquidity)
                    > u64::MAX,
        },
{
    if sqrt_price_upper <= sqrt_price_lower {
        return Err(LiquidityError::InvalidPriceRange);
    }
    let difference = sqrt_price_upper - sqrt_price_lower;
    let amount = match mul_div_floor(liquidity, difference, Q64) {
        Ok(v) => v,
        Err(e) => {
            return Err(e);
        },
    };
    if amount > 0xffff_ffff_ffff_ffffu128 {
        return Err(LiquidityError::MathOverflow);
    }
    Ok(amount as u64)
}

} // verus!
