use clmm::errors::SwapError;
use clmm::pool::{initialize, LpPoolStateShape};
use clmm::swap_engine::swap;
use clmm::tick::{update_on_liquidity_change, TickArrayState};
use clmm::tick_math::{MAX_SQRT_PRICE_X64, MIN_SQRT_PRICE_X64, Q64};

const SPA_NEG_60: u128 = 18391489527427947879;

fn page_net_sum(page: &TickArrayState) -> i128 {
    let mut total: i128 = 0;
    for t in page.ticks.iter() {
        total += t.liquidity_net;
    }
    total
}

/// A pool at tick 0 with one position spanning ticks [-60, 60] holding
/// liquidity 1,000,000, all in one page (spacing 60, slots 0 and 2).
fn setup() -> (LpPoolStateShape, TickArrayState) {
    let mut pool = initialize(1, 2, 3, 4, 5, 60, 3000, Q64).unwrap();
    let mut page = TickArrayState::new(1, -60, 60);
    update_on_liquidity_change(&mut page, 0, 1_000_000, true, false).unwrap();
    update_on_liquidity_change(&mut page, 2, 1_000_000, true, true).unwrap();
    pool.liquidity = 1_000_000;
    (pool, page)
}

#[test]
fn swap_rejects_a_limit_at_the_current_price() {
    let (mut pool, mut page) = setup();
    let current = pool.sqrt_price_x64;
    assert_eq!(
        swap(&mut pool, &mut page, true, 1000, 0, current),
        Err(SwapError::InvalidSqrtPriceLimit)
    );
    assert_eq!(
        swap(&mut pool, &mut page, false, 1000, 0, current),
        Err(SwapError::InvalidSqrtPriceLimit)
    );
    assert_eq!(pool.sqrt_price_x64, current);
}

#[test]
fn swap_rejects_a_limit_beyond_the_bounds() {
    let (mut pool, mut page) = setup();
    assert_eq!(
        swap(&mut pool, &mut page, true, 1000, 0, MIN_SQRT_PRICE_X64 - 1),
        Err(SwapError::InvalidSqrtPriceLimit)
    );
    assert_eq!(
        swap(&mut pool, &mut page, false, 1000, 0, MAX_SQRT_PRICE_X64 + 1),
        Err(SwapError::InvalidSqrtPriceLimit)
    );
}

#[test]
fn swap_rejects_an_empty_pool() {
    let mut pool = initialize(1, 2, 3, 4, 5, 60, 3000, Q64).unwrap();
    let mut page = TickArrayState::new(1, -60, 60);
    assert_eq!(
        swap(&mut pool, &mut page, true, 1000, 0, MIN_SQRT_PRICE_X64),
        Err(SwapError::NoLiquidity)
    );
}

#[test]
fn swap_rejects_a_zero_amount() {
    let (mut pool, mut page) = setup();
    assert_eq!(
        swap(&mut pool, &mut page, true, 0, 0, MIN_SQRT_PRICE_X64),
        Err(SwapError::ZeroAmount)
    );
}

#[test]
fn small_swap_pays_fee_and_price_impact() {
    let (mut pool, mut page) = setup();
    let (used, out) = swap(&mut pool, &mut page, true, 1000, 0, MIN_SQRT_PRICE_X64).unwrap();
    assert_eq!(used, 1000);
    // positive output, but below the naive constant-price estimate of 1000:
    // 3 units of fee and the price impact both reduce it
    assert_eq!(out, 996);
    assert!(out > 0 && out < 1000);
    assert_eq!(pool.sqrt_price_x64, 18428370987834680439);
    assert_eq!(pool.tick_current, -20);
    assert!(pool.tick_current <= 0);
    assert_eq!(pool.liquidity, 1_000_000);
    // 3 units of fee accrued per unit of liquidity, in Q64.64
    assert_eq!(pool.fee_growth_global_0, 55340232221128);
    assert_eq!(pool.fee_growth_global_1, 0);
}

#[test]
fn larger_swap_crosses_the_tick_and_drains_liquidity() {
    let (mut pool, mut page) = setup();
    let (used, out) = swap(&mut pool, &mut page, true, 5000, 0, MIN_SQRT_PRICE_X64).unwrap();
    // the range's edge takes 3005 in plus 10 fee; the rest cannot be
    // served within this page and stays with the caller
    assert_eq!(used, 3015);
    assert_eq!(out, 2995);
    assert_eq!(pool.sqrt_price_x64, SPA_NEG_60);
    assert_eq!(pool.tick_current, -60);
    // the crossed lower bound removed the position's liquidity
    assert_eq!(pool.liquidity, 0);
    assert_eq!(pool.fee_growth_global_0, 184467440737095);
    // the crossed tick flipped its outside accumulators
    assert_eq!(page.ticks[0].fee_growth_outside_0, 184467440737095);
    assert_eq!(page.ticks[0].fee_growth_outside_1, 0);
    assert_eq!(page.ticks[0].liquidity_net, 1_000_000);
    assert_eq!(page_net_sum(&page), 0);
}

#[test]
fn swap_slippage_leaves_the_pool_untouched() {
    let (mut pool, mut page) = setup();
    assert_eq!(
        swap(&mut pool, &mut page, true, 1000, 10_000, MIN_SQRT_PRICE_X64),
        Err(SwapError::SlippageExceeded)
    );
    assert_eq!(pool.sqrt_price_x64, Q64);
    assert_eq!(pool.tick_current, 0);
    assert_eq!(pool.liquidity, 1_000_000);
    assert_eq!(pool.fee_growth_global_0, 0);
    assert!(!page.ticks[0].initialized || page.ticks[0].fee_growth_outside_0 == 0);
}

#[test]
fn swap_upward_crosses_the_upper_bound() {
    let (mut pool, mut page) = setup();
    let (used, out) = swap(&mut pool, &mut page, false, 5000, 1, MAX_SQRT_PRICE_X64).unwrap();
    assert!(used <= 5000);
    assert!(out >= 1);
    assert!(pool.sqrt_price_x64 > Q64);
    assert!(pool.tick_current >= 0);
    assert_eq!(page_net_sum(&page), 0);
}

#[test]
fn swap_respects_the_price_limit() {
    let (mut pool, mut page) = setup();
    let limit: u128 = 18440000000000000000;
    let (_used, out) = swap(&mut pool, &mut page, true, 1_000_000, 0, limit).unwrap();
    assert_eq!(pool.sqrt_price_x64, limit);
    assert!(out > 0);
}

#[test]
fn swap_output_overflow_is_reported() {
    // a pool priced near 1.0001^200040, deep liquidity: a token-0 swap
    // would owe more token 1 than fits in 64 bits
    let price = clmm::tick_math::get_sqrt_price_at_tick(200040).unwrap();
    let mut pool = initialize(1, 2, 3, 4, 5, 60, 0, price).unwrap();
    pool.liquidity = 1u128 << 100;
    let mut page = TickArrayState::new(1, 196500, 60);
    assert_eq!(
        swap(&mut pool, &mut page, true, 1 << 40, 0, MIN_SQRT_PRICE_X64),
        Err(SwapError::MathOverflow)
    );
    assert_eq!(pool.sqrt_price_x64, price);
    assert_eq!(pool.liquidity, 1u128 << 100);
}
