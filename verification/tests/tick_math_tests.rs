use clmm::errors::TickMathError;
use clmm::tick_math::{
    get_sqrt_price_at_tick, get_tick_at_sqrt_price, MAX_SQRT_PRICE_X64, MAX_TICK,
    MIN_SQRT_PRICE_X64, MIN_TICK, Q64,
};

#[test]
fn sqrt_price_at_tick_zero_is_one() {
    assert_eq!(get_sqrt_price_at_tick(0), Ok(Q64));
}

#[test]
fn sqrt_price_at_small_ticks() {
    assert_eq!(get_sqrt_price_at_tick(1), Ok(18447666387855959851));
    assert_eq!(get_sqrt_price_at_tick(-1), Ok(18445821805675392311));
    assert_eq!(get_sqrt_price_at_tick(60), Ok(18502164624211761450));
    assert_eq!(get_sqrt_price_at_tick(-60), Ok(18391489527427947879));
}

#[test]
fn sqrt_price_at_extreme_ticks() {
    assert_eq!(get_sqrt_price_at_tick(MIN_TICK), Ok(MIN_SQRT_PRICE_X64));
    assert_eq!(get_sqrt_price_at_tick(MAX_TICK), Ok(MAX_SQRT_PRICE_X64));
}

#[test]
fn sqrt_price_rejects_out_of_range_tick() {
    assert_eq!(
        get_sqrt_price_at_tick(MAX_TICK + 1),
        Err(TickMathError::TickOutOfRange)
    );
    assert_eq!(
        get_sqrt_price_at_tick(MIN_TICK - 1),
        Err(TickMathError::TickOutOfRange)
    );
}

#[test]
fn tick_at_sqrt_price_rejects_out_of_range_price() {
    assert_eq!(
        get_tick_at_sqrt_price(MIN_SQRT_PRICE_X64 - 1),
        Err(TickMathError::TickOutOfRange)
    );
    assert_eq!(
        get_tick_at_sqrt_price(MAX_SQRT_PRICE_X64 + 1),
        Err(TickMathError::TickOutOfRange)
    );
}

#[test]
fn tick_price_round_trip_is_exact() {
    for tick in [
        0, 1, -1, 60, -60, 443636, -443636, 12345, -98765, 250000, -250000,
    ] {
        let price = get_sqrt_price_at_tick(tick).unwrap();
        assert_eq!(get_tick_at_sqrt_price(price), Ok(tick));
    }
}

#[test]
fn price_round_trip_never_overshoots() {
    for price in [
        MIN_SQRT_PRICE_X64,
        Q64,
        Q64 + 12345,
        18391489527427947879 + 1,
        MAX_SQRT_PRICE_X64,
    ] {
        let tick = get_tick_at_sqrt_price(price).unwrap();
        assert!(get_sqrt_price_at_tick(tick).unwrap() <= price);
    }
}

#[test]
fn sqrt_price_is_strictly_increasing() {
    for tick in [-443636, -100000, -61, -1, 0, 1, 59, 100000, 443635] {
        let here = get_sqrt_price_at_tick(tick).unwrap();
        let next = get_sqrt_price_at_tick(tick + 1).unwrap();
        assert!(here < next);
    }
}
