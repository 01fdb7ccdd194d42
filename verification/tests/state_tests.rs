use clmm::errors::{LiquidityError, TickMathError};
use clmm::pool::initialize;
use clmm::position::open_position;
use clmm::tick::{update_on_liquidity_change, TickArrayState};
use clmm::tick_math::{MAX_SQRT_PRICE_X64, MIN_SQRT_PRICE_X64, Q64};

fn page_net_sum(page: &TickArrayState) -> i128 {
    let mut total: i128 = 0;
    for t in page.ticks.iter() {
        total += t.liquidity_net;
    }
    total
}

#[test]
fn initialize_derives_the_tick_from_the_price() {
    let pool = initialize(1, 2, 3, 4, 5, 60, 3000, Q64).unwrap();
    assert_eq!(pool.tick_current, 0);
    assert_eq!(pool.sqrt_price_x64, Q64);
    assert_eq!(pool.liquidity, 0);
    assert_eq!(pool.fee_growth_global_0, 0);
    assert_eq!(pool.fee_growth_global_1, 0);
    let pool_low = initialize(1, 2, 3, 4, 5, 60, 3000, 18391489527427947879).unwrap();
    assert_eq!(pool_low.tick_current, -60);
}

#[test]
fn initialize_rejects_out_of_range_prices() {
    assert_eq!(
        initialize(1, 2, 3, 4, 5, 60, 3000, MIN_SQRT_PRICE_X64 - 1),
        Err(TickMathError::TickOutOfRange)
    );
    assert_eq!(
        initialize(1, 2, 3, 4, 5, 60, 3000, MAX_SQRT_PRICE_X64 + 1),
        Err(TickMathError::TickOutOfRange)
    );
}

#[test]
fn open_position_starts_empty() {
    let position = open_position(1, 7, -60, 60, 60).unwrap();
    assert_eq!(position.tick_lower, -60);
    assert_eq!(position.tick_upper, 60);
    assert_eq!(position.liquidity, 0);
    assert_eq!(position.tokens_owed_0, 0);
    assert_eq!(position.tokens_owed_1, 0);
}

#[test]
fn open_position_rejects_bad_ranges() {
    assert_eq!(
        open_position(1, 7, 60, -60, 60),
        Err(LiquidityError::InvalidPriceRange)
    );
    assert_eq!(
        open_position(1, 7, -50, 60, 60),
        Err(LiquidityError::InvalidPriceRange)
    );
    assert_eq!(
        open_position(1, 7, -443700, 60, 60),
        Err(LiquidityError::InvalidPriceRange)
    );
}

#[test]
fn fresh_page_is_empty_and_balanced() {
    let page = TickArrayState::new(1, -60, 60);
    assert_eq!(page.ticks.len(), 60);
    assert_eq!(page_net_sum(&page), 0);
    assert!(!page.ticks[0].initialized);
}

#[test]
fn tick_index_in_page_maps_the_grid() {
    let page = TickArrayState::new(1, -60, 60);
    assert_eq!(page.tick_index_in_page(60, -60), Ok(0));
    assert_eq!(page.tick_index_in_page(60, 0), Ok(1));
    assert_eq!(page.tick_index_in_page(60, 60), Ok(2));
    assert_eq!(page.tick_index_in_page(60, 3480), Ok(59));
    assert_eq!(
        page.tick_index_in_page(60, -120),
        Err(LiquidityError::TickOutOfPage)
    );
    assert_eq!(
        page.tick_index_in_page(60, 30),
        Err(LiquidityError::TickOutOfPage)
    );
    assert_eq!(
        page.tick_index_in_page(60, 3540),
        Err(LiquidityError::TickOutOfPage)
    );
}

#[test]
fn liquidity_change_updates_both_sides_of_a_tick() {
    let mut page = TickArrayState::new(1, -60, 60);
    update_on_liquidity_change(&mut page, 0, 500, true, false).unwrap();
    assert!(page.ticks[0].initialized);
    assert_eq!(page.ticks[0].liquidity_gross, 500);
    assert_eq!(page.ticks[0].liquidity_net, 500);
    update_on_liquidity_change(&mut page, 0, 200, true, true).unwrap();
    assert_eq!(page.ticks[0].liquidity_gross, 700);
    assert_eq!(page.ticks[0].liquidity_net, 300);
    update_on_liquidity_change(&mut page, 0, 100, false, false).unwrap();
    assert_eq!(page.ticks[0].liquidity_gross, 600);
    assert_eq!(page.ticks[0].liquidity_net, 200);
}

#[test]
fn liquidity_change_underflow_is_reported() {
    let mut page = TickArrayState::new(1, -60, 60);
    update_on_liquidity_change(&mut page, 3, 500, true, false).unwrap();
    assert_eq!(
        update_on_liquidity_change(&mut page, 3, 501, false, false),
        Err(LiquidityError::LiquidityUnderflow)
    );
    assert_eq!(page.ticks[3].liquidity_gross, 500);
}
