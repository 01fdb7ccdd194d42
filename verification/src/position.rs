//! Position state: one record per liquidity provider and tick range, with
//! the liquidity supplied and the fees settled so far.

use vstd::prelude::*;
use vstd::arithmetic::div_mod::{lemma_fundamental_div_mod, lemma_mod_multiples_basic};
use crate::errors::LiquidityError;
use crate::tick_math::{MIN_TICK, MAX_TICK};

verus! {

/// A liquidity provider's stake in one tick range of one pool.
#[derive(Clone, Copy, Debug, PartialEq, Eq, Structural)]
pub struct Position {
    /// Identifier of the pool the position belongs to.
    pub pool_id: u64,
    /// Identifier of the position's owner.
    pub owner: u64,
    /// Lower bound of the range; a multiple of the pool's tick spacing.
    pub tick_lower: i32,
    /// Upper bound of the range; a multiple of the pool's tick spacing.
    pub tick_upper: i32,
    /// Liquidity currently supplied over the range.
    pub liquidity: u128,
    /// Fee growth inside the range at the last settlement, token 0.
    pub fee_growth_inside_0_last: u128,
    /// Fee growth inside the range at the last settlement, token 1.
    pub fee_growth_inside_1_last: u128,
    /// Settled, claimable fees in token 0.
    pub tokens_owed_0: u64,
    /// Settled, claimable fees in token 1.
    pub tokens_owed_1: u64,
}

/// Whether a tick index is a multiple of the tick spacing.
pub open spec fn spec_tick_aligned(tick: int, tick_spacing: int) -> bool {
    tick % tick_spacing == 0
}

impl Position {
    /// Well-formedness: an ordered, aligned tick range inside the tick
    /// bounds.
    pub open spec fn wf(self, tick_spacing: u16) -> bool {
        &&& MIN_TICK <= self.tick_lower < self.tick_upper <= MAX_TICK
        &&& spec_tick_aligned(self.tick_lower as int, tick_spacing as int)
        &&& spec_tick_aligned(self.tick_upper as int, tick_spacing as int)
    }
}

/// Whether an executable tick value is a multiple of the spacing, checked
/// on magnitudes to avoid signed remainders.
pub fn tick_aligned(tick: i32, tick_spacing: u16) -> (r: bool)
    requires
        tick_spacing >= 1,
        MIN_TICK <= tick <= MAX_TICK,
    ensures
        r == spec_tick_aligned(tick as int, tick_spacing as int),
{
    let s = tick_spacing as u32;
    let magnitude: u32 = if tick >= 0 {
        tick as u32
    } else {
        (-tick) as u32
    };
    let r = magnitude % s == 0;
    proof {
        let t: int = tick as int;
        let si: int = s as int;
        lemma_fundamental_div_mod(magnitude as int, si);
        if tick < 0 {
            let q: int = magnitude as int / si;
            assert(magnitude as int == si * q + (magnitude as int % si));
            if magnitude as int % si == 0 {
                assert(si * (-q) == -(si * q)) by (nonlinear_arith);
                assert(t == si * (-q));
                lemma_mod_multiples_basic(-q, si);
            }
            if t % si == 0 {
                lemma_fundamental_div_mod(t, si);
                let q2: int = t / si;
                assert(t == si * q2);
                assert(si * (-q2) == -(si * q2)) by (nonlinear_arith);
                assert(magnitude as int == si * (-q2));
                lemma_mod_multiples_basic(-q2, si);
            }
        }
    }
    r
}

/// Opens an empty position over `[tick_lower, tick_upper]`. Fails with
/// `InvalidPriceRange` exactly when the range is inverted, out of bounds or
/// not aligned to the tick spacing.
pub fn open_position(
    pool_id: u64,
    owner: u64,
    tick_lower: i32,
    tick_upper: i32,
    tick_spacing: u16,
) -> (r: Result<Position, LiquidityError>)
    requires
        tick_spacing >= 1,
    ensures
        match r {
            Ok(p) => p.wf(tick_spacing) && p == (Position {
                pool_id,
                owner,
                tick_lower,
                tick_upper,
                liquidity: 0,
                fee_growth_inside_0_last: 0,
                fee_growth_inside_1_last: 0,
                tokens_owed_0: 0,
                tokens_owed_1: 0,
            }),
            Err(e) => e == LiquidityError::InvalidPriceRange && !(MIN_TICK <= tick_lower
                < tick_upper <= MAX_TICK && spec_tick_aligned(tick_lower as int, tick_spacing as int)
                && spec_tick_aligned(tick_upper as int, tick_spacing as int)),
        },
        r is Ok <==> (MIN_TICK <= tick_lower < tick_upper <= MAX_TICK
            && spec_tick_aligned(tick_lower as int, tick_spacing as int)
            && spec_tick_aligned(tick_upper as int, tick_spacing as int)),
{
    if tick_lower < MIN_TICK || tick_upper > MAX_TICK || tick_lower >= tick_upper {
        return Err(LiquidityError::InvalidPriceRange);
    }
    if !tick_aligned(tick_lower, tick_spacing) || !tick_aligned(tick_upper, tick_spacing) {
        return Err(LiquidityError::InvalidPriceRange);
    }
    Ok(Position {
        pool_id,
        owner,
        tick_lower,
        tick_upper,
        liquidity: 0,
        fee_growth_inside_0_last: 0,
        fee_growth_inside_1_last: 0,
        tokens_owed_0: 0,
        tokens_owed_1: 0,
    })
}

} // verus!
