use clmm::errors::LiquidityError;
use clmm::fee_math::{
    calculate_tokens_owed, get_fee_growth_above, get_fee_growth_below, get_fee_growth_inside,
};
use clmm::full_math::{div_u256_u128, div_u320_u192, mul_div_ceil, mul_div_floor, mul_u128};
use clmm::liquidity_math::{
    get_amounts_0_from_liquidity, get_amounts_1_from_liquidity, get_liquidity_from_amount_0,
    get_liquidity_from_amount_1,
};
use clmm::swap_math::{
    compute_swap_step, get_amount_0_delta, get_amount_1_delta, get_next_sqrt_price_from_input,
};
use clmm::tick_math::Q64;

const SPA_0: u128 = 18446744073709551616;
const SPA_NEG_60: u128 = 18391489527427947879;
const SPA_60: u128 = 18502164624211761450;

#[test]
fn mul_u128_splits_a_wide_product() {
    let (hi, lo) = mul_u128(u128::MAX, u128::MAX);
    // (2^128 - 1)^2 == (2^128 - 2) * 2^128 + 1
    assert_eq!(hi, u128::MAX - 1);
    assert_eq!(lo, 1);
    let (hi2, lo2) = mul_u128(1 << 64, 1 << 64);
    assert_eq!(hi2, 1);
    assert_eq!(lo2, 0);
}

#[test]
fn div_u256_u128_divides_exactly() {
    // (7 * 2^128 + 9) / 16
    let (q, r) = div_u256_u128(7, 9, 16);
    // 7 * 2^128 + 9 == q * 16 + r
    assert_eq!(q, 148873535527910577765226390751398592512);
    assert_eq!(r, 9);
}

#[test]
fn mul_div_rounding() {
    assert_eq!(mul_div_floor(10, 10, 3), Ok(33));
    assert_eq!(mul_div_ceil(10, 10, 3), Ok(34));
    assert_eq!(mul_div_floor(10, 9, 3), Ok(30));
    assert_eq!(mul_div_ceil(10, 9, 3), Ok(30));
}

#[test]
fn mul_div_overflow_is_reported() {
    assert_eq!(
        mul_div_floor(u128::MAX, u128::MAX, 1),
        Err(LiquidityError::MathOverflow)
    );
    assert_eq!(
        mul_div_ceil(u128::MAX, 2, 1),
        Err(LiquidityError::MathOverflow)
    );
}

#[test]
fn fee_growth_below_and_above() {
    assert_eq!(get_fee_growth_below(10, 5, 1000, 300), 300);
    assert_eq!(get_fee_growth_below(3, 5, 1000, 300), 700);
    assert_eq!(get_fee_growth_above(3, 5, 1000, 200), 200);
    assert_eq!(get_fee_growth_above(7, 5, 1000, 200), 800);
}

#[test]
fn fee_growth_inside_subtracts_both_sides() {
    // price inside the range: inside == global - below - above
    assert_eq!(get_fee_growth_inside(-10, 10, 0, 1000, 300, 200), 500);
    // price below the range
    assert_eq!(get_fee_growth_inside(-10, 10, -20, 1000, 300, 200), 100);
}

#[test]
fn tokens_owed_scales_by_liquidity() {
    // a fee growth delta of 5 in Q64.64, with liquidity 3, owes 15 tokens
    assert_eq!(calculate_tokens_owed(5 * Q64, 0, 3), Ok(15));
    assert_eq!(calculate_tokens_owed(0, 0, 12345), Ok(0));
}

#[test]
fn tokens_owed_survives_wraparound() {
    // the accumulator wrapped past 2^128: last + 5 * 2^64 (mod 2^128)
    let last: u128 = 340282366920938463426481119284349108223;
    let cur: u128 = 55340232221128654847;
    assert_eq!(calculate_tokens_owed(cur, last, 3), Ok(15));
}

#[test]
fn tokens_owed_overflow_is_reported() {
    assert_eq!(
        calculate_tokens_owed(u128::MAX, 0, u128::MAX),
        Err(LiquidityError::MathOverflow)
    );
}

#[test]
fn liquidity_from_amounts_matches_formulas() {
    assert_eq!(
        get_liquidity_from_amount_0(SPA_0, SPA_60, 5000),
        Ok(1669251)
    );
    assert_eq!(
        get_liquidity_from_amount_1(SPA_NEG_60, SPA_0, 5000),
        Ok(1669251)
    );
}

#[test]
fn liquidity_from_amounts_rejects_empty_range() {
    assert_eq!(
        get_liquidity_from_amount_0(SPA_60, SPA_0, 5000),
        Err(LiquidityError::InvalidPriceRange)
    );
    assert_eq!(
        get_liquidity_from_amount_1(SPA_0, SPA_0, 5000),
        Err(LiquidityError::InvalidPriceRange)
    );
}

#[test]
fn amounts_from_liquidity_match_formulas() {
    assert_eq!(
        get_amounts_0_from_liquidity(SPA_0, SPA_60, 1669251),
        Ok(4999)
    );
    assert_eq!(
        get_amounts_1_from_liquidity(SPA_NEG_60, SPA_0, 1669251),
        Ok(4999)
    );
}

#[test]
fn amount_deltas_round_in_both_directions() {
    assert_eq!(get_amount_1_delta(SPA_NEG_60, SPA_0, 12345, false), Ok(36));
    assert_eq!(get_amount_1_delta(SPA_NEG_60, SPA_0, 12345, true), Ok(37));
    assert_eq!(get_amount_0_delta(SPA_NEG_60, SPA_0, 12345, false), Ok(37));
    assert_eq!(get_amount_0_delta(SPA_NEG_60, SPA_0, 12345, true), Ok(38));
}

#[test]
fn swap_step_exhausts_the_budget_before_the_target() {
    // 1000 in at 0.3% fee cannot reach the next tick: budget 997 is spent,
    // the remainder of 3 is the fee
    let step = compute_swap_step(SPA_0, SPA_NEG_60, 1_000_000, 1000, 3000, true).unwrap();
    assert_eq!(step, (18428370987834680439, 997, 996, 3));
}

#[test]
fn swap_step_reaches_the_target_and_charges_the_fee() {
    // 5000 in covers the 3005 needed to reach the tick; fee rounds up
    let step = compute_swap_step(SPA_0, SPA_NEG_60, 1_000_000, 5000, 3000, true).unwrap();
    assert_eq!(step, (SPA_NEG_60, 3005, 2995, 10));
}

#[test]
fn amount_0_is_exact_near_the_minimum_price() {
    // adjacent prices just above the minimum: the exact wide division
    // rounds down to 999962 (a naive Q64-floored denominator would give
    // 1000000 and pay out more than owed)
    let lower: u128 = 4295048016;
    let upper: u128 = 4295048017;
    assert_eq!(get_amounts_0_from_liquidity(lower, upper, 1_000_000), Ok(999962));
    assert_eq!(get_amount_0_delta(lower, upper, 1_000_000, false), Ok(999962));
    assert_eq!(get_amount_0_delta(lower, upper, 1_000_000, true), Ok(999963));
}

#[test]
fn fee_growth_sides_wrap_modularly() {
    // a wrapped accumulator: the outside snapshot exceeds the global, and
    // the difference comes back modulo 2^128
    assert_eq!(
        get_fee_growth_below(3, 5, 100, 300),
        u128::MAX - 199
    );
    assert_eq!(
        get_fee_growth_above(7, 5, 100, 300),
        u128::MAX - 199
    );
}

#[test]
fn next_price_down_is_the_exact_wide_quotient() {
    // sqrtP = 1.5 in Q64.64, liquidity 1, input 1:
    // L*2^64*P / (L*2^64 + 1*P) == 0.6 in Q64.64 exactly
    let p: u128 = 3 * (Q64 / 2);
    assert_eq!(
        get_next_sqrt_price_from_input(p, 1, 1, true),
        Ok(11068046444225730969)
    );
    // a zero input leaves the price alone
    assert_eq!(get_next_sqrt_price_from_input(p, 1, 0, true), Ok(p));
}

#[test]
fn div_u320_u192_divides_exactly() {
    // (2^256 + 2*2^128 + 3) / (2^128 + 5)
    let (q, r_hi, r_lo) = div_u320_u192(1, 2, 3, 1, 5);
    assert_eq!(q, 340282366920938463463374607431768211453);
    assert_eq!(r_hi, 0);
    assert_eq!(r_lo, 18);
}
