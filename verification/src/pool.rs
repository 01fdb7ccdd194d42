//! Pool state: one record per token pair, holding the pair's configuration
//! and the current price, active liquidity and fee accumulators.

use vstd::prelude::*;
use crate::errors::TickMathError;
use crate::tick_math::{
    get_tick_at_sqrt_price, spec_sqrt_price_at_tick, MIN_TICK, MAX_TICK, MIN_SQRT_PRICE_X64,
    MAX_SQRT_PRICE_X64,
};

verus! {

/// One liquidity pool. Token, vault and mint identifiers are opaque to the
/// accounting core; the surrounding runtime maps them to real accounts.
#[derive(Clone, Copy, Debug, PartialEq, Eq, Structural)]
pub struct LpPoolStateShape {
    /// Identifier of the first token of the pair.
    pub token_0: u64,
    /// Identifier of the second token of the pair.
    pub token_1: u64,
    /// Identifier of the vault holding token 0.
    pub vault_0: u64,
    /// Identifier of the vault holding token 1.
    pub vault_1: u64,
    /// Identifier of the LP share mint.
    pub lp_mint: u64,
    /// Granularity of initializable ticks; positive.
    pub tick_spacing: u16,
    /// Fee rate in parts per million.
    pub fee_rate: u32,
    /// Current Q64.64 square-root price.
    pub sqrt_price_x64: u128,
    /// Tick consistent with `sqrt_price_x64`.
    pub tick_current: i32,
    /// Liquidity active at the current price.
    pub liquidity: u128,
    /// All-time fee per unit liquidity in token 0 (Q64.64, may wrap).
    pub fee_growth_global_0: u128,
    /// All-time fee per unit liquidity in token 1 (Q64.64, may wrap).
    pub fee_growth_global_1: u128,
}

impl LpPoolStateShape {
    /// Well-formedness: the configuration is in range and the current tick
    /// brackets the current square-root price.
    pub open spec fn wf(self) -> bool {
        &&& 1 <= self.tick_spacing
        &&& self.fee_rate <= 1_000_000
        &&& MIN_TICK <= self.tick_current <= MAX_TICK
        &&& MIN_SQRT_PRICE_X64 <= self.sqrt_price_x64 <= MAX_SQRT_PRICE_X64
        &&& spec_sqrt_price_at_tick(self.tick_current as int) <= self.sqrt_price_x64
        &&& (self.tick_current < MAX_TICK ==> self.sqrt_price_x64 < spec_sqrt_price_at_tick(
            self.tick_current + 1,
        ))
    }
}

/// Builds a fresh pool at a starting square-root price, deriving the
/// current tick from the price. Fails with `TickOutOfRange` exactly when
/// the price lies outside `[MIN_SQRT_PRICE_X64, MAX_SQRT_PRICE_X64]`.
pub fn initialize(
    token_0: u64,
    token_1: u64,
    vault_0: u64,
    vault_1: u64,
    lp_mint: u64,
    tick_spacing: u16,
    fee_rate: u32,
    sqrt_price_x64: u128,
) -> (r: Result<LpPoolStateShape, TickMathError>)
    requires
        tick_spacing >= 1,
        fee_rate <= 1_000_000,
    ensures
        MIN_SQRT_PRICE_X64 <= sqrt_price_x64 <= MAX_SQRT_PRICE_X64 ==> (r matches Ok(pool)
            && pool.wf()
            && pool.token_0 == token_0
            && pool.token_1 == token_1
            && pool.vault_0 == vault_0
            && pool.vault_1 == vault_1
            && pool.lp_mint == lp_mint
            && pool.tick_spacing == tick_spacing
            && pool.fee_rate == fee_rate
            && pool.sqrt_price_x64 == sqrt_price_x64
            && pool.liquidity == 0
            && pool.fee_growth_global_0 == 0
            && pool.fee_growth_global_1 == 0),
        !(MIN_SQRT_PRICE_X64 <= sqrt_price_x64 <= MAX_SQRT_PRICE_X64) ==> r
            == Err::<LpPoolStateShape, TickMathError>(TickMathError::TickOutOfRange),
{
    let tick_current = match get_tick_at_sqrt_price(sqrt_price_x64) {
        Ok(t) => t,
        Err(e) => {
            return Err(e);
        },
    };
    Ok(LpPoolStateShape {
        token_0,
        token_1,
        vault_0,
        vault_1,
        lp_mint,
        tick_spacing,
        fee_rate,
        sqrt_price_x64,
        tick_current,
        liquidity: 0,
        fee_growth_global_0: 0,
        fee_growth_global_1: 0,
    })
}

} // verus!
