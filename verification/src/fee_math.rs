//! Fee-growth accounting: how much fee per unit of liquidity has accrued
//! inside a tick range, and how many tokens that makes a position owe.
//!
//! Fee-growth accumulators are Q64.64 values that may wrap over the life of
//! a pool; deltas are therefore recovered with modular subtraction.

use vstd::prelude::*;
use crate::errors::LiquidityError;
use crate::full_math::mul_div_floor;
use crate::pool::LpPoolStateShape;
use crate::position::Position;
use crate::tick::TickState;

verus! {

/// One in Q64.64 fixed point: 2^64.
pub const Q64: u128 = 0x1_0000_0000_0000_0000;

/// Fee growth accrued below `tick_lower`, seen from `tick_current`, with
/// modular subtraction so that wrapped accumulators stay meaningful.
pub open spec fn spec_fee_growth_below(
    tick_current: int,
    tick_lower: int,
    fee_growth_global: u128,
    fee_growth_outside: u128,
) -> u128 {
    if tick_current >= tick_lower {
        fee_growth_outside
    } else {
        fee_growth_global.wrapping_sub(fee_growth_outside)
    }
}

/// Fee growth accrued above `tick_upper`, seen from `tick_current`, with
/// modular subtraction so that wrapped accumulators stay meaningful.
pub open spec fn spec_fee_growth_above(
    tick_current: int,
    tick_upper: int,
    fee_growth_global: u128,
    fee_growth_outside: u128,
) -> u128 {
    if tick_current < tick_upper {
        fee_growth_outside
    } else {
        fee_growth_global.wrapping_sub(fee_growth_outside)
    }
}

/// Fee growth accrued strictly inside `[tick_lower, tick_upper)`: the global
/// accumulator minus the growth below and above the range, with deliberate
/// modular subtraction.
pub open spec fn spec_fee_growth_inside(
    tick_lower: int,
    tick_upper: int,
    tick_current: int,
    fee_growth_global: u128,
    fee_growth_outside_lower: u128,
    fee_growth_outside_upper: u128,
) -> u128 {
    fee_growth_global.wrapping_sub(
        spec_fee_growth_below(tick_current, tick_lower, fee_growth_global, fee_growth_outside_lower),
    ).wrapping_sub(
        spec_fee_growth_above(tick_current, tick_upper, fee_growth_global, fee_growth_outside_upper),
    )
}

/// Fee growth on the side of `tick_lower` away from the price when the price
/// is at `tick_current`.
pub fn get_fee_growth_below(
    tick_current: i32,
    tick_lower: i32,
    fee_growth_global: u128,
    fee_growth_outside: u128,
) -> (r: u128)
    ensures
        r == spec_fee_growth_below(
            tick_current as int,
            tick_lower as int,
            fee_growth_global,
            fee_growth_outside,
        ),
{
    if tick_current >= tick_lower {
        fee_growth_outside
    } else {
        fee_growth_global.wrapping_sub(fee_growth_outside)
    }
}

/// Fee growth on the side of `tick_upper` away from the price when the price
/// is at `tick_current`.
pub fn get_fee_growth_above(
    tick_current: i32,
    tick_upper: i32,
    fee_growth_global: u128,
    fee_growth_outside: u128,
) -> (r: u128)
    ensures
        r == spec_fee_growth_above(
            tick_current as int,
            tick_upper as int,
            fee_growth_global,
            fee_growth_outside,
        ),
{
    if tick_current < tick_upper {
        fee_growth_outside
    } else {
        fee_growth_global.wrapping_sub(fee_growth_outside)
    }
}

/// Fee growth accrued inside `[tick_lower, tick_upper)` since the pool began.
pub fn get_fee_growth_inside(
    tick_lower: i32,
    tick_upper: i32,
    tick_current: i32,
    fee_growth_global: u128,
    fee_growth_outside_lower: u128,
    fee_growth_outside_upper: u128,
) -> (r: u128)
    ensures
        r == spec_fee_growth_inside(
            tick_lower as int,
            tick_upper as int,
            tick_current as int,
            fee_growth_global,
            fee_growth_outside_lower,
            fee_growth_outside_upper,
        ),
{
    let fee_growth_below = get_fee_growth_below(
        tick_current,
        tick_lower,
        fee_growth_global,
        fee_growth_outside_lower,
    );
    let fee_growth_above = get_fee_growth_above(
        tick_current,
        tick_upper,
        fee_growth_global,
        fee_growth_outside_upper,
    );
    fee_growth_global.wrapping_sub(fee_growth_below).wrapping_sub(fee_growth_above)
}


/// Tokens owed for a fee-growth movement: the wrapped difference of the two
/// inside values, scaled by the liquidity, in whole tokens:
/// `floor(((current - last) mod 2^128) * liquidity / 2^64)`.
pub open spec fn spec_tokens_owed(
    fee_growth_inside_current: u128,
    fee_growth_inside_last: u128,
    liquidity: u128,
) -> int {
    (fee_growth_inside_current.wrapping_sub(fee_growth_inside_last) * liquidity)
        / 0x1_0000_0000_0000_0000
}

/// Tokens a position is owed for the fee growth since its last settlement,
/// computed with modular subtraction so that accumulator wraparound cancels
/// out. Fails with `MathOverflow` when the amount does not fit in 64 bits.
pub fn calculate_tokens_owed(
    fee_growth_inside_current: u128,
    fee_growth_inside_last: u128,
    liquidity: u128,
) -> (r: Result<u64, LiquidityError>)
    ensures
        match r {
            Ok(owed) => owed == spec_tokens_owed(
                fee_growth_inside_current,
                fee_growth_inside_last,
                liquidity,
            ),
            Err(e) => e == LiquidityError::MathOverflow && spec_tokens_owed(
                fee_growth_inside_current,
                fee_growth_inside_last,
                liquidity,
            ) > u64::MAX,
        },
{
    let delta = fee_growth_inside_current.wrapping_sub(fee_growth_inside_last);
    let owed = match mul_div_floor(delta, liquidity, Q64) {
        Ok(v) => v,
        Err(e) => {
            return Err(e);
        },
    };
    if owed > 0xffff_ffff_ffff_ffffu128 {
        return Err(LiquidityError::MathOverflow);
    }
    Ok(owed as u64)
}

/// Settles a position's pending fees: adds the tokens owed since the last
/// settlement (computed with the position's current liquidity) to
/// `tokens_owed_0/1` and records the inside fee growth as the new
/// settlement point. On any error the position is unchanged.
pub fn update_position_fees(
    position: &mut Position,
    pool: &LpPoolStateShape,
    tick_lower_state: &TickState,
    tick_upper_state: &TickState,
) -> (r: Result<(), LiquidityError>)
    ensures
        ({
            let inside_0 = spec_fee_growth_inside(
                old(position).tick_lower as int,
                old(position).tick_upper as int,
                pool.tick_current as int,
                pool.fee_growth_global_0,
                tick_lower_state.fee_growth_outside_0,
                tick_upper_state.fee_growth_outside_0,
            );
            let inside_1 = spec_fee_growth_inside(
                old(position).tick_lower as int,
                old(position).tick_upper as int,
                pool.tick_current as int,
                pool.fee_growth_global_1,
                tick_lower_state.fee_growth_outside_1,
                tick_upper_state.fee_growth_outside_1,
            );
            let d0 = spec_tokens_owed(
                inside_0,
                old(position).fee_growth_inside_0_last,
                old(position).liquidity,
            );
            let d1 = spec_tokens_owed(
                inside_1,
                old(position).fee_growth_inside_1_last,
                old(position).liquidity,
            );
            match r {
                Ok(()) => d0 <= u64::MAX && d1 <= u64::MAX
                    && old(position).tokens_owed_0 + d0 <= u64::MAX
                    && old(position).tokens_owed_1 + d1 <= u64::MAX
                    && *final(position) == (Position {
                        tokens_owed_0: (old(position).tokens_owed_0 + d0) as u64,
                        tokens_owed_1: (old(position).tokens_owed_1 + d1) as u64,
                        fee_growth_inside_0_last: inside_0,
                        fee_growth_inside_1_last: inside_1,
                        ..*old(position)
                    }),
                Err(e) => e == LiquidityError::MathOverflow
                    && *final(position) == *old(position)
                    && (d0 > u64::MAX || d1 > u64::MAX
                        || old(position).tokens_owed_0 + d0 > u64::MAX
                        || old(position).tokens_owed_1 + d1 > u64::MAX),
            }
        }),
{
    let fee_growth_inside_0 = get_fee_growth_inside(
        position.tick_lower,
        position.tick_upper,
        pool.tick_current,
        pool.fee_growth_global_0,
        tick_lower_state.fee_growth_outside_0,
        tick_upper_state.fee_growth_outside_0,
    );
    let fee_growth_inside_1 = get_fee_growth_inside(
        position.tick_lower,
        position.tick_upper,
        pool.tick_current,
        pool.fee_growth_global_1,
        tick_lower_state.fee_growth_outside_1,
        tick_upper_state.fee_growth_outside_1,
    );
    let tokens_owed_0 = match calculate_tokens_owed(
        fee_growth_inside_0,
        position.fee_growth_inside_0_last,
        position.liquidity,
    ) {
        Ok(v) => v,
        Err(e) => {
            return Err(e);
        },
    };
    let tokens_owed_1 = match calculate_tokens_owed(
        fee_growth_inside_1,
        position.fee_growth_inside_1_last,
        position.liquidity,
    ) {
        Ok(v) => v,
        Err(e) => {
            return Err(e);
        },
    };
    let new_owed_0 = match position.tokens_owed_0.checked_add(tokens_owed_0) {
        Some(v) => v,
        None => {
            return Err(LiquidityError::MathOverflow);
        },
    };
    let new_owed_1 = match position.tokens_owed_1.checked_add(tokens_owed_1) {
        Some(v) => v,
        None => {
            return Err(LiquidityError::MathOverflow);
        },
    };
    position.tokens_owed_0 = new_owed_0;
    position.tokens_owed_1 = new_owed_1;
    position.fee_growth_inside_0_last = fee_growth_inside_0;
    position.fee_growth_inside_1_last = fee_growth_inside_1;
    Ok(())
}


/// Law: for a fee-growth accumulator that moved forward by `growth`
/// (including across the modular wraparound boundary), the settled token
/// delta is exactly `floor(growth * liquidity / 2^64)`, and never
/// negative.
pub proof fn lemma_tokens_owed_wraparound(
    fee_growth_inside_last: u128,
    growth: int,
    liquidity: u128,
)
    requires
        0 <= growth < 0x1_0000_0000_0000_0000_0000_0000_0000_0000int,
    ensures
        spec_tokens_owed(
            ((fee_growth_inside_last + growth)
                % 0x1_0000_0000_0000_0000_0000_0000_0000_0000int) as u128,
            fee_growth_inside_last,
            liquidity,
        ) == (growth * liquidity) / 0x1_0000_0000_0000_0000,
        (growth * liquidity) / 0x1_0000_0000_0000_0000 >= 0,
{
    let m: int = 0x1_0000_0000_0000_0000_0000_0000_0000_0000int;
    let cur: u128 = ((fee_growth_inside_last + growth) % m) as u128;
    if fee_growth_inside_last + growth < m {
        assert(cur == fee_growth_inside_last + growth);
        assert(cur.wrapping_sub(fee_growth_inside_last) == growth);
    } else {
        assert(cur == fee_growth_inside_last + growth - m);
        assert(cur.wrapping_sub(fee_growth_inside_last) == growth);
    }
    assert((growth * liquidity) / 0x1_0000_0000_0000_0000 >= 0) by (nonlinear_arith)
        requires
            growth >= 0,
            liquidity >= 0,
    ;
}

} // verus!
