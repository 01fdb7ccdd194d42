use clmm::errors::LiquidityError;
use clmm::liquidity_ops::{decrease_liquidity, increase_liquidity};
use clmm::pool::{initialize, LpPoolStateShape};
use clmm::position::{open_position, Position};
use clmm::tick::TickArrayState;
use clmm::tick_math::Q64;

fn arena_net_sum(pages: &Vec<TickArrayState>) -> i128 {
    let mut total: i128 = 0;
    for page in pages.iter() {
        for t in page.ticks.iter() {
            total += t.liquidity_net;
        }
    }
    total
}

fn setup() -> (LpPoolStateShape, Position, Vec<TickArrayState>) {
    let pool = initialize(1, 2, 3, 4, 5, 60, 3000, Q64).unwrap();
    let position = open_position(1, 7, -60, 60, 60).unwrap();
    let pages = vec![TickArrayState::new(1, -60, 60)];
    (pool, position, pages)
}

#[test]
fn increase_with_no_budget_is_zero_liquidity() {
    let (mut pool, mut position, mut pages) = setup();
    assert_eq!(
        increase_liquidity(&mut pool, &mut position, &mut pages, 0, 0),
        Err(LiquidityError::ZeroLiquidity)
    );
    assert_eq!(pool.liquidity, 0);
    assert_eq!(position.liquidity, 0);
    assert_eq!(arena_net_sum(&pages), 0);
}

#[test]
fn increase_takes_the_tighter_token_budget() {
    let (mut pool, mut position, mut pages) = setup();
    let amounts = increase_liquidity(&mut pool, &mut position, &mut pages, 5000, 5000).unwrap();
    assert_eq!(amounts, (4999, 4999));
    assert_eq!(position.liquidity, 1669251);
    // the range contains the current tick, so the pool's active liquidity
    // grows too
    assert_eq!(pool.liquidity, 1669251);
    // both boundary ticks moved symmetrically
    assert_eq!(pages[0].ticks[0].liquidity_gross, 1669251);
    assert_eq!(pages[0].ticks[0].liquidity_net, 1669251);
    assert!(pages[0].ticks[0].initialized);
    assert_eq!(pages[0].ticks[2].liquidity_gross, 1669251);
    assert_eq!(pages[0].ticks[2].liquidity_net, -1669251);
    assert!(pages[0].ticks[2].initialized);
    assert_eq!(arena_net_sum(&pages), 0);
}

#[test]
fn increase_missing_page_is_out_of_page() {
    let (mut pool, mut position, _) = setup();
    let mut pages: Vec<TickArrayState> = vec![TickArrayState::new(1, 3600, 60)];
    assert_eq!(
        increase_liquidity(&mut pool, &mut position, &mut pages, 5000, 5000),
        Err(LiquidityError::TickOutOfPage)
    );
}

#[test]
fn decrease_returns_the_proportional_amounts() {
    let (mut pool, mut position, mut pages) = setup();
    increase_liquidity(&mut pool, &mut position, &mut pages, 5000, 5000).unwrap();
    let amounts = decrease_liquidity(&mut pool, &mut position, &mut pages, 100_000).unwrap();
    assert_eq!(amounts, (299, 299));
    assert_eq!(position.liquidity, 1569251);
    assert_eq!(pool.liquidity, 1569251);
    assert_eq!(pages[0].ticks[0].liquidity_net, 1569251);
    assert_eq!(pages[0].ticks[2].liquidity_net, -1569251);
    assert_eq!(arena_net_sum(&pages), 0);
}

#[test]
fn decrease_of_zero_is_rejected() {
    let (mut pool, mut position, mut pages) = setup();
    increase_liquidity(&mut pool, &mut position, &mut pages, 5000, 5000).unwrap();
    assert_eq!(
        decrease_liquidity(&mut pool, &mut position, &mut pages, 0),
        Err(LiquidityError::ZeroLiquidity)
    );
}

#[test]
fn decrease_beyond_the_position_is_rejected() {
    let (mut pool, mut position, mut pages) = setup();
    increase_liquidity(&mut pool, &mut position, &mut pages, 5000, 5000).unwrap();
    let before_pool_liquidity = pool.liquidity;
    let before_position_liquidity = position.liquidity;
    let too_much = position.liquidity + 1;
    assert_eq!(
        decrease_liquidity(&mut pool, &mut position, &mut pages, too_much),
        Err(LiquidityError::InsufficientLiquidity)
    );
    // nothing changed
    assert_eq!(pool.liquidity, before_pool_liquidity);
    assert_eq!(position.liquidity, before_position_liquidity);
    assert_eq!(pages[0].ticks[0].liquidity_gross, 1669251);
    assert_eq!(arena_net_sum(&pages), 0);
}

#[test]
fn liquidity_net_stays_balanced_over_a_sequence() {
    let (mut pool, mut position, mut pages) = setup();
    increase_liquidity(&mut pool, &mut position, &mut pages, 5000, 5000).unwrap();
    increase_liquidity(&mut pool, &mut position, &mut pages, 700, 900).unwrap();
    decrease_liquidity(&mut pool, &mut position, &mut pages, 40_000).unwrap();
    decrease_liquidity(&mut pool, &mut position, &mut pages, 1).unwrap();
    assert_eq!(arena_net_sum(&pages), 0);
}

#[test]
fn decrease_inverts_increase_on_liquidity_bookkeeping() {
    let (mut pool, mut position, mut pages) = setup();
    increase_liquidity(&mut pool, &mut position, &mut pages, 5000, 5000).unwrap();
    let added = position.liquidity;
    decrease_liquidity(&mut pool, &mut position, &mut pages, added).unwrap();
    // pool, position and both boundary ticks are back to their start
    assert_eq!(pool.liquidity, 0);
    assert_eq!(position.liquidity, 0);
    assert_eq!(pages[0].ticks[0].liquidity_gross, 0);
    assert_eq!(pages[0].ticks[0].liquidity_net, 0);
    assert_eq!(pages[0].ticks[2].liquidity_gross, 0);
    assert_eq!(pages[0].ticks[2].liquidity_net, 0);
    assert_eq!(arena_net_sum(&pages), 0);
}
