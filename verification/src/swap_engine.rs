//! The swap state machine: consumes an input amount, stepping the price
//! across initialized ticks within one tick page, accumulating output and
//! fee growth, and crossing ticks as it passes them.
//!
//! All work happens on local copies; the pool and the tick page are written
//! back only when the whole swap succeeds, so a failure leaves no partial
//! state behind. A swap that exhausts the page's ticks stops at the page
//! boundary as a partial fill; fetching the adjacent page and swapping
//! again is the caller's concern.

use vstd::prelude::*;
use crate::errors::SwapError;
use crate::pool::LpPoolStateShape;
use crate::tick::{sum_net, lemma_sum_net_update, TickArrayState, TickState};
use crate::tick_math::{
    get_tick_at_sqrt_price, sqrt_price_at_tick_internal, Q64, MAX_SQRT_PRICE_X64,
    MIN_SQRT_PRICE_X64,
};
use crate::tick_math_proofs::lemma_sqrt_price_in_range;
use crate::swap_math::{
    compute_swap_step, find_next_initialized_tick, q64_int, spec_step_amount_in,
    spec_step_amount_out, spec_step_fee, spec_step_next_price,
};
use crate::tick_math::spec_sqrt_price_at_tick;

verus! {

/// The running state of one swap.
pub struct SwapState {
    /// Input not yet consumed (fee included).
    pub amount_remaining: u64,
    /// Output accumulated so far.
    pub amount_calculated: u64,
    /// Current Q64.64 square-root price.
    pub sqrt_price_x64: u128,
    /// Search cursor: the tick the next search starts from.
    pub tick: i32,
    /// Liquidity active at the current price.
    pub liquidity: u128,
    /// Fee-growth accumulator of the input token.
    pub fee_growth_global: u128,
}


/// The spec-level result of running the swap loop from a given state: the
/// final running state and page, or a width overflow somewhere on the way.
pub struct SwapSim {
    /// Whether some quantity left its width: the swap fails with
    /// `MathOverflow` and writes nothing.
    pub overflow: bool,
    /// Input left unconsumed.
    pub amount_remaining: u64,
    /// Output accumulated.
    pub amount_calculated: u64,
    /// Final Q64.64 square-root price.
    pub sqrt_price_x64: u128,
    /// Final active liquidity.
    pub liquidity: u128,
    /// Final fee-growth accumulator of the input token.
    pub fee_growth_global: u128,
    /// Final tick slots of the page.
    pub ticks: Seq<TickState>,
}

/// The largest initialized slot at or below `slot`, or -1.
pub open spec fn spec_find_down(ticks: Seq<TickState>, slot: int) -> int
    decreases slot + 1,
{
    if slot < 0 {
        -1
    } else if 0 <= slot < ticks.len() && ticks[slot].initialized {
        slot
    } else {
        spec_find_down(ticks, slot - 1)
    }
}

/// The smallest initialized slot strictly above `slot` and below 60, or 60.
pub open spec fn spec_find_up(ticks: Seq<TickState>, slot: int) -> int
    decreases 60 - slot,
{
    if slot + 1 >= 60 || slot < -1 {
        60
    } else if 0 <= slot + 1 < ticks.len() && ticks[slot + 1].initialized {
        slot + 1
    } else {
        spec_find_up(ticks, slot + 1)
    }
}

/// A slot that is initialized, with nothing initialized between it and the
/// search start, is what the downward search finds.
proof fn lemma_find_down_agrees(ticks: Seq<TickState>, cur_slot: int, slot: int)
    requires
        ticks.len() == 60,
        0 <= slot <= cur_slot < 60,
        ticks[slot].initialized,
        forall|j: int| slot < j <= cur_slot ==> !#[trigger] ticks[j].initialized,
    ensures
        spec_find_down(ticks, cur_slot) == slot,
    decreases cur_slot - slot,
{
    if cur_slot > slot {
        lemma_find_down_agrees(ticks, cur_slot - 1, slot);
    }
}

/// With nothing initialized at or below the search start, the downward
/// search comes up empty.
proof fn lemma_find_down_none(ticks: Seq<TickState>, cur_slot: int)
    requires
        ticks.len() == 60,
        cur_slot < 60,
        forall|j: int| 0 <= j <= cur_slot ==> !#[trigger] ticks[j].initialized,
    ensures
        spec_find_down(ticks, cur_slot) == -1,
    decreases cur_slot + 1,
{
    if cur_slot >= 0 {
        lemma_find_down_none(ticks, cur_slot - 1);
    }
}

/// A slot that is initialized, with nothing initialized between the search
/// start and it, is what the upward search finds.
proof fn lemma_find_up_agrees(ticks: Seq<TickState>, cur_slot: int, slot: int)
    requires
        ticks.len() == 60,
        -1 <= cur_slot < slot < 60,
        0 <= slot,
        ticks[slot].initialized,
        forall|j: int| cur_slot < j < slot ==> !#[trigger] ticks[j].initialized,
    ensures
        spec_find_up(ticks, cur_slot) == slot,
    decreases slot - cur_slot,
{
    if cur_slot + 1 < slot {
        lemma_find_up_agrees(ticks, cur_slot + 1, slot);
    }
}

/// With nothing initialized above the search start, the upward search
/// comes up empty.
proof fn lemma_find_up_none(ticks: Seq<TickState>, cur_slot: int)
    requires
        ticks.len() == 60,
        cur_slot >= -1,
        forall|j: int| cur_slot < j < 60 ==> !#[trigger] ticks[j].initialized,
    ensures
        spec_find_up(ticks, cur_slot) == 60,
    decreases 60 - cur_slot,
{
    if cur_slot + 1 < 60 {
        lemma_find_up_none(ticks, cur_slot + 1);
    }
}


/// One spec-level state of the loop folded into its final outcome: from a
/// running state, take one step toward the next initialized tick (or the
/// page edge), flag any width overflow, cross the tick when the step
/// reaches it exactly, and continue until the input is spent, the limit is
/// hit, the budget dies before a tick, or the page edge is passed.
pub open spec fn spec_swap_run(
    ticks: Seq<TickState>,
    start: int,
    spacing: int,
    pool_g0: u128,
    pool_g1: u128,
    fee_rate: u32,
    zero_for_one: bool,
    limit: u128,
    remaining: u64,
    calculated: u64,
    price: u128,
    cursor: int,
    liq: u128,
    fee_g: u128,
) -> SwapSim
    decreases (if zero_for_one {
        cursor - start
    } else {
        start + 60 * spacing - cursor
    })
        when 1 <= spacing && start <= cursor < start + 60 * spacing && ticks.len() == 60
    via spec_swap_run_dec
{
    if remaining == 0 || price == limit {
        SwapSim {
            overflow: false,
            amount_remaining: remaining,
            amount_calculated: calculated,
            sqrt_price_x64: price,
            liquidity: liq,
            fee_growth_global: fee_g,
            ticks,
        }
    } else {
        let cur_slot = (cursor - start) / spacing;
        let fslot = if zero_for_one {
            spec_find_down(ticks, cur_slot)
        } else {
            spec_find_up(ticks, cur_slot)
        };
        let found = if zero_for_one {
            fslot >= 0
        } else {
            fslot < 60
        };
        let slot = if !found {
            if zero_for_one {
                0
            } else {
                59
            }
        } else {
            fslot
        };
        let next_tick = start + slot * spacing;
        let tick_price = spec_sqrt_price_at_tick(next_tick) as u128;
        let target: u128 = if zero_for_one {
            let t0 = if tick_price >= limit {
                tick_price
            } else {
                limit
            };
            if t0 > price {
                price
            } else {
                t0
            }
        } else {
            let t0 = if tick_price <= limit {
                tick_price
            } else {
                limit
            };
            if t0 < price {
                price
            } else {
                t0
            }
        };
        let next_price = spec_step_next_price(price, target, liq, remaining, fee_rate,
            zero_for_one);
        let step_in = spec_step_amount_in(price, target, liq, remaining, fee_rate, zero_for_one);
        let step_out = spec_step_amount_out(price, target, liq, remaining, fee_rate,
            zero_for_one);
        let step_fee = spec_step_fee(price, target, liq, remaining, fee_rate, zero_for_one);
        let halt = SwapSim {
            overflow: true,
            amount_remaining: remaining,
            amount_calculated: calculated,
            sqrt_price_x64: price,
            liquidity: liq,
            fee_growth_global: fee_g,
            ticks,
        };
        if step_out > u64::MAX {
            halt
        } else if calculated + step_out > u64::MAX {
            halt
        } else {
            let remaining2: u64 = if step_in + step_fee <= remaining {
                (remaining - step_in - step_fee) as u64
            } else {
                0
            };
            let calculated2: u64 = (calculated + step_out) as u64;
            let fee_delta: int = if liq > 0 && step_fee > 0 {
                (step_fee * q64_int()) / (liq as int)
            } else {
                0
            };
            if fee_g + fee_delta > u128::MAX {
                halt
            } else {
                let fee_g2: u128 = (fee_g + fee_delta) as u128;
                let price2: u128 = next_price as u128;
                if found && next_price == tick_price {
                    // the tick was crossed
                    let t = ticks[slot];
                    let g0 = if zero_for_one {
                        fee_g2
                    } else {
                        pool_g0
                    };
                    let g1 = if zero_for_one {
                        pool_g1
                    } else {
                        fee_g2
                    };
                    let t2 = TickState {
                        fee_growth_outside_0: g0.wrapping_sub(t.fee_growth_outside_0),
                        fee_growth_outside_1: g1.wrapping_sub(t.fee_growth_outside_1),
                        ..t
                    };
                    let ticks2 = ticks.update(slot, t2);
                    let mag: int = if t.liquidity_net >= 0 {
                        t.liquidity_net as int
                    } else {
                        -(t.liquidity_net as int)
                    };
                    let gains = (t.liquidity_net >= 0) != zero_for_one;
                    if gains && liq + mag > u128::MAX {
                        SwapSim { ticks: ticks2, ..halt }
                    } else {
                        let liq2: u128 = if gains {
                            (liq + mag) as u128
                        } else if liq >= mag {
                            (liq - mag) as u128
                        } else {
                            0
                        };
                        if zero_for_one && slot == 0 {
                            SwapSim {
                                overflow: false,
                                amount_remaining: remaining2,
                                amount_calculated: calculated2,
                                sqrt_price_x64: price2,
                                liquidity: liq2,
                                fee_growth_global: fee_g2,
                                ticks: ticks2,
                            }
                        } else if !zero_for_one && slot == 59 {
                            SwapSim {
                                overflow: false,
                                amount_remaining: remaining2,
                                amount_calculated: calculated2,
                                sqrt_price_x64: price2,
                                liquidity: liq2,
                                fee_growth_global: fee_g2,
                                ticks: ticks2,
                            }
                        } else {
                            spec_swap_run(
                                ticks2,
                                start,
                                spacing,
                                pool_g0,
                                pool_g1,
                                fee_rate,
                                zero_for_one,
                                limit,
                                remaining2,
                                calculated2,
                                price2,
                                if zero_for_one {
                                    next_tick - 1
                                } else {
                                    next_tick
                                },
                                liq2,
                                fee_g2,
                            )
                        }
                    }
                } else {
                    // the budget or the limit ended the swap before a tick
                    SwapSim {
                        overflow: false,
                        amount_remaining: remaining2,
                        amount_calculated: calculated2,
                        sqrt_price_x64: price2,
                        liquidity: liq,
                        fee_growth_global: fee_g2,
                        ticks,
                    }
                }
            }
        }
    }
}


/// The downward search never passes its start.
proof fn lemma_find_down_bounds(ticks: Seq<TickState>, slot: int)
    ensures
        -1 <= spec_find_down(ticks, slot),
        slot >= 0 ==> spec_find_down(ticks, slot) <= slot,
        slot < 0 ==> spec_find_down(ticks, slot) == -1,
    decreases slot + 1,
{
    if slot >= 0 {
        lemma_find_down_bounds(ticks, slot - 1);
    }
}

/// The upward search stays strictly above its start and within the page.
proof fn lemma_find_up_bounds(ticks: Seq<TickState>, slot: int)
    requires
        -1 <= slot <= 59,
    ensures
        slot < spec_find_up(ticks, slot) <= 60,
    decreases 60 - slot,
{
    if slot + 1 < 60 && !(0 <= slot + 1 < ticks.len() && ticks[slot + 1].initialized) {
        lemma_find_up_bounds(ticks, slot + 1);
    }
}

#[via_fn]
proof fn spec_swap_run_dec(
    ticks: Seq<TickState>,
    start: int,
    spacing: int,
    pool_g0: u128,
    pool_g1: u128,
    fee_rate: u32,
    zero_for_one: bool,
    limit: u128,
    remaining: u64,
    calculated: u64,
    price: u128,
    cursor: int,
    liq: u128,
    fee_g: u128,
) {
    let off = cursor - start;
    let cur_slot = off / spacing;
    vstd::arithmetic::div_mod::lemma_fundamental_div_mod(off, spacing);
    assert(0 <= cur_slot <= 59) by (nonlinear_arith)
        requires
            0 <= off < 60 * spacing,
            spacing >= 1,
            cur_slot == off / spacing,
            off == spacing * cur_slot + off % spacing,
            0 <= off % spacing < spacing,
    ;
    if zero_for_one {
        lemma_find_down_bounds(ticks, cur_slot);
        let fd = spec_find_down(ticks, cur_slot);
        if fd >= 1 {
            assert(0 <= fd * spacing - 1 < off) by (nonlinear_arith)
                requires
                    1 <= fd <= cur_slot,
                    spacing >= 1,
                    off == spacing * cur_slot + off % spacing,
                    0 <= off % spacing,
            ;
        }
    } else {
        lemma_find_up_bounds(ticks, cur_slot);
        let fu = spec_find_up(ticks, cur_slot);
        if cur_slot < fu < 60 {
            assert(0 <= 60 * spacing - fu * spacing && 60 * spacing - fu * spacing < 60 * spacing
                - off) by (nonlinear_arith)
                requires
                    cur_slot + 1 <= fu <= 59,
                    spacing >= 1,
                    off == spacing * cur_slot + off % spacing,
                    0 <= off % spacing < spacing,
            ;
        }
    }
}

/// Copies a tick page, slot by slot.
fn copy_page(page: &TickArrayState) -> (r: TickArrayState)
    requires
        page.ticks.len() == 60,
    ensures
        r.pool_id == page.pool_id,
        r.start_tick_index == page.start_tick_index,
        r.ticks@ =~= page.ticks@,
{
    let mut ticks: Vec<TickState> = Vec::new();
    let mut i: usize = 0;
    while i < 60
        invariant
            i <= 60,
            page.ticks.len() == 60,
            ticks.len() == i,
            forall|j: int| 0 <= j < i ==> ticks[j] == page.ticks[j],
        decreases 60 - i,
    {
        ticks.push(page.ticks[i]);
        i = i + 1;
    }
    proof {
        assert(ticks@ =~= page.ticks@);
    }
    TickArrayState { pool_id: page.pool_id, start_tick_index: page.start_tick_index, ticks }
}

/// Executes a swap of `amount_in` of the input token against the pool,
/// within one tick page, computing exactly what `spec_swap_run` defines
/// from the starting state. Returns the input actually charged (fee
/// included) and the output produced. Price-limit, liquidity and amount
/// validation happen before any computation; on every error the pool and
/// the page are unchanged. A crossing whose net liquidity would push the
/// active liquidity below zero saturates it at zero, as `spec_swap_run`
/// records.
#[verifier::rlimit(100)]
#[verifier::spinoff_prover]
pub fn swap(
    pool: &mut LpPoolStateShape,
    tick_array: &mut TickArrayState,
    zero_for_one: bool,
    amount_in: u64,
    minimum_amount_out: u64,
    sqrt_price_limit_x64: u128,
) -> (r: Result<(u64, u64), SwapError>)
    requires
        old(pool).wf(),
        old(tick_array).wf(old(pool).tick_spacing),
        old(tick_array).start_tick_index <= old(pool).tick_current,
        old(pool).tick_current < old(tick_array).start_tick_index + 60 * (
        old(pool).tick_spacing as int),
    ensures
        ({
            let limit_ok = if zero_for_one {
                MIN_SQRT_PRICE_X64 <= sqrt_price_limit_x64 < old(pool).sqrt_price_x64
            } else {
                old(pool).sqrt_price_x64 < sqrt_price_limit_x64 <= MAX_SQRT_PRICE_X64
            };
            let sim = spec_swap_run(
                old(tick_array).ticks@,
                old(tick_array).start_tick_index as int,
                old(pool).tick_spacing as int,
                old(pool).fee_growth_global_0,
                old(pool).fee_growth_global_1,
                old(pool).fee_rate,
                zero_for_one,
                sqrt_price_limit_x64,
                amount_in,
                0,
                old(pool).sqrt_price_x64,
                old(pool).tick_current as int,
                old(pool).liquidity,
                if zero_for_one {
                    old(pool).fee_growth_global_0
                } else {
                    old(pool).fee_growth_global_1
                },
            );
            &&& (!limit_ok ==> r == Err::<(u64, u64), SwapError>(SwapError::InvalidSqrtPriceLimit))
            &&& (limit_ok && old(pool).liquidity == 0 ==> r == Err::<(u64, u64), SwapError>(
                SwapError::NoLiquidity,
            ))
            &&& (limit_ok && old(pool).liquidity > 0 && amount_in == 0 ==> r == Err::<
                (u64, u64),
                SwapError,
            >(SwapError::ZeroAmount))
            &&& match r {
                Ok(res) => {
                    &&& limit_ok
                    &&& old(pool).liquidity > 0
                    &&& amount_in > 0
                    &&& res.0 <= amount_in
                    &&& res.1 >= minimum_amount_out
                    &&& !sim.overflow
                    &&& sim.amount_calculated >= minimum_amount_out
                    &&& res.0 == amount_in - sim.amount_remaining
                    &&& res.1 == sim.amount_calculated
                    &&& final(pool).sqrt_price_x64 == sim.sqrt_price_x64
                    &&& final(pool).liquidity == sim.liquidity
                    &&& (zero_for_one ==> final(pool).fee_growth_global_0
                        == sim.fee_growth_global)
                    &&& (!zero_for_one ==> final(pool).fee_growth_global_1
                        == sim.fee_growth_global)
                    &&& final(tick_array).ticks@ =~= sim.ticks
                    &&& final(pool).wf()
                    &&& final(pool).token_0 == old(pool).token_0
                    &&& final(pool).token_1 == old(pool).token_1
                    &&& final(pool).vault_0 == old(pool).vault_0
                    &&& final(pool).vault_1 == old(pool).vault_1
                    &&& final(pool).lp_mint == old(pool).lp_mint
                    &&& final(pool).tick_spacing == old(pool).tick_spacing
                    &&& final(pool).fee_rate == old(pool).fee_rate
                    &&& (zero_for_one ==> sqrt_price_limit_x64 <= final(pool).sqrt_price_x64
                        <= old(pool).sqrt_price_x64)
                    &&& (!zero_for_one ==> old(pool).sqrt_price_x64
                        <= final(pool).sqrt_price_x64 <= sqrt_price_limit_x64)
                    &&& (zero_for_one
                        ==> final(pool).fee_growth_global_1 == old(pool).fee_growth_global_1
                        && final(pool).fee_growth_global_0 >= old(pool).fee_growth_global_0)
                    &&& (!zero_for_one
                        ==> final(pool).fee_growth_global_0 == old(pool).fee_growth_global_0
                        && final(pool).fee_growth_global_1 >= old(pool).fee_growth_global_1)
                    &&& final(tick_array).wf(old(pool).tick_spacing)
                    &&& final(tick_array).pool_id == old(tick_array).pool_id
                    &&& final(tick_array).start_tick_index == old(tick_array).start_tick_index
                    &&& sum_net(final(tick_array).ticks@) == sum_net(old(tick_array).ticks@)
                },
                Err(e) => {
                    &&& *final(pool) == *old(pool)
                    &&& final(tick_array).pool_id == old(tick_array).pool_id
                    &&& final(tick_array).start_tick_index == old(tick_array).start_tick_index
                    &&& final(tick_array).ticks@ =~= old(tick_array).ticks@
                    &&& (e == SwapError::InvalidSqrtPriceLimit || e == SwapError::NoLiquidity
                        || e == SwapError::ZeroAmount || e == SwapError::SlippageExceeded
                        || e == SwapError::MathOverflow)
                    &&& (e == SwapError::InvalidSqrtPriceLimit ==> !limit_ok)
                    &&& (e == SwapError::NoLiquidity ==> limit_ok && old(pool).liquidity == 0)
                    &&& (e == SwapError::ZeroAmount ==> limit_ok && old(pool).liquidity > 0
                        && amount_in == 0)
                    &&& (e == SwapError::SlippageExceeded ==> !sim.overflow
                        && sim.amount_calculated < minimum_amount_out)
                    &&& (e == SwapError::MathOverflow ==> sim.overflow)
                },
            }
        }),
{
    let tick_spacing = pool.tick_spacing;
    let fee_rate = pool.fee_rate;
    // price-limit, liquidity and amount validation
    if zero_for_one {
        if !(sqrt_price_limit_x64 < pool.sqrt_price_x64
            && sqrt_price_limit_x64 >= MIN_SQRT_PRICE_X64) {
            return Err(SwapError::InvalidSqrtPriceLimit);
        }
    } else {
        if !(sqrt_price_limit_x64 > pool.sqrt_price_x64
            && sqrt_price_limit_x64 <= MAX_SQRT_PRICE_X64) {
            return Err(SwapError::InvalidSqrtPriceLimit);
        }
    }
    if pool.liquidity == 0 {
        return Err(SwapError::NoLiquidity);
    }
    if amount_in == 0 {
        return Err(SwapError::ZeroAmount);
    }
    let mut page = copy_page(tick_array);
    proof {
        assert(page.ticks@ =~= tick_array.ticks@);
    }
    let ghost start_i: int = page.start_tick_index as int;
    let ghost spacing_i: int = tick_spacing as int;
    let mut state = SwapState {
        amount_remaining: amount_in,
        amount_calculated: 0,
        sqrt_price_x64: pool.sqrt_price_x64,
        tick: pool.tick_current,
        liquidity: pool.liquidity,
        fee_growth_global: if zero_for_one {
            pool.fee_growth_global_0
        } else {
            pool.fee_growth_global_1
        },
    };
    let ghost sim = spec_swap_run(
        old(tick_array).ticks@,
        old(tick_array).start_tick_index as int,
        old(pool).tick_spacing as int,
        old(pool).fee_growth_global_0,
        old(pool).fee_growth_global_1,
        old(pool).fee_rate,
        zero_for_one,
        sqrt_price_limit_x64,
        amount_in,
        0,
        old(pool).sqrt_price_x64,
        old(pool).tick_current as int,
        old(pool).liquidity,
        if zero_for_one {
            old(pool).fee_growth_global_0
        } else {
            old(pool).fee_growth_global_1
        },
    );
    proof {
        assert(page.ticks@ == old(tick_array).ticks@);
        assert(spec_swap_run(
            page.ticks@,
            start_i,
            spacing_i,
            pool.fee_growth_global_0,
            pool.fee_growth_global_1,
            fee_rate,
            zero_for_one,
            sqrt_price_limit_x64,
            state.amount_remaining,
            state.amount_calculated,
            state.sqrt_price_x64,
            state.tick as int,
            state.liquidity,
            state.fee_growth_global,
        ) == sim);
    }
    while state.amount_remaining > 0 && state.sqrt_price_x64 != sqrt_price_limit_x64
        invariant_except_break
            spec_swap_run(
                page.ticks@,
                start_i,
                spacing_i,
                pool.fee_growth_global_0,
                pool.fee_growth_global_1,
                fee_rate,
                zero_for_one,
                sqrt_price_limit_x64,
                state.amount_remaining,
                state.amount_calculated,
                state.sqrt_price_x64,
                state.tick as int,
                state.liquidity,
                state.fee_growth_global,
            ) == sim,
        invariant
            pool.wf(),
            pool.tick_spacing == tick_spacing,
            pool.fee_rate == fee_rate,
            pool.liquidity > 0,
            amount_in > 0,
            zero_for_one ==> sqrt_price_limit_x64 < pool.sqrt_price_x64,
            !zero_for_one ==> sqrt_price_limit_x64 > pool.sqrt_price_x64,
            page.wf(tick_spacing),
            page.pool_id == old(tick_array).pool_id,
            page.start_tick_index == old(tick_array).start_tick_index,
            sum_net(page.ticks@) == sum_net(old(tick_array).ticks@),
            page.start_tick_index <= state.tick,
            state.tick < page.start_tick_index + 60 * (tick_spacing as int),
            state.amount_remaining <= amount_in,
            zero_for_one ==> MIN_SQRT_PRICE_X64 <= sqrt_price_limit_x64
                <= state.sqrt_price_x64 <= pool.sqrt_price_x64,
            !zero_for_one ==> pool.sqrt_price_x64 <= state.sqrt_price_x64
                <= sqrt_price_limit_x64 <= MAX_SQRT_PRICE_X64,
            MIN_SQRT_PRICE_X64 <= state.sqrt_price_x64 <= MAX_SQRT_PRICE_X64,
            state.fee_growth_global >= (if zero_for_one {
                pool.fee_growth_global_0
            } else {
                pool.fee_growth_global_1
            }),
            page.start_tick_index as int == start_i,
            tick_spacing as int == spacing_i,
            sim == spec_swap_run(
                old(tick_array).ticks@,
                old(tick_array).start_tick_index as int,
                old(pool).tick_spacing as int,
                old(pool).fee_growth_global_0,
                old(pool).fee_growth_global_1,
                old(pool).fee_rate,
                zero_for_one,
                sqrt_price_limit_x64,
                amount_in,
                0,
                old(pool).sqrt_price_x64,
                old(pool).tick_current as int,
                old(pool).liquidity,
                if zero_for_one {
                    old(pool).fee_growth_global_0
                } else {
                    old(pool).fee_growth_global_1
                },
            ),
        ensures
            sim == (SwapSim {
                overflow: false,
                amount_remaining: state.amount_remaining,
                amount_calculated: state.amount_calculated,
                sqrt_price_x64: state.sqrt_price_x64,
                liquidity: state.liquidity,
                fee_growth_global: state.fee_growth_global,
                ticks: page.ticks@,
            }),
        decreases
            (if zero_for_one {
                state.tick - page.start_tick_index
            } else {
                page.start_tick_index + 60 * (tick_spacing as int) - state.tick
            }),
    {
        let ghost ticks_pre = page.ticks@;
        let ghost rem_pre = state.amount_remaining;
        let ghost calc_pre = state.amount_calculated;
        let ghost price_pre = state.sqrt_price_x64;
        let ghost tick_pre: int = state.tick as int;
        let ghost liq_pre = state.liquidity;
        let ghost feeg_pre = state.fee_growth_global;
        // locate the next initialized tick in the direction of travel
        let (next_tick, slot, found) = match find_next_initialized_tick(
            &page,
            state.tick,
            tick_spacing,
            zero_for_one,
        ) {
            Some(v) => v,
            None => {
                proof {
                    assert(false);
                }
                return Err(SwapError::MathOverflow);
            },
        };
        let ghost cur_slot: int = (tick_pre - start_i) / spacing_i;
        proof {
            crate::swap_math::lemma_slot_tick_bounds(
                page.start_tick_index as int,
                tick_spacing as int,
                slot as int,
            );
            lemma_sqrt_price_in_range(
                page.start_tick_index + (slot as int) * (tick_spacing as int),
            );
            // the search result is what the spec-level search names
            vstd::arithmetic::div_mod::lemma_fundamental_div_mod(tick_pre - start_i, spacing_i);
            assert(0 <= cur_slot <= 59) by (nonlinear_arith)
                requires
                    0 <= tick_pre - start_i < 60 * spacing_i,
                    spacing_i >= 1,
                    cur_slot == (tick_pre - start_i) / spacing_i,
                    tick_pre - start_i == spacing_i * cur_slot + (tick_pre - start_i)
                        % spacing_i,
                    0 <= (tick_pre - start_i) % spacing_i < spacing_i,
            ;
            if zero_for_one {
                if found {
                    lemma_find_down_agrees(ticks_pre, cur_slot, slot as int);
                } else {
                    lemma_find_down_none(ticks_pre, cur_slot);
                }
            } else {
                if found {
                    lemma_find_up_agrees(ticks_pre, cur_slot, slot as int);
                } else {
                    lemma_find_up_none(ticks_pre, cur_slot);
                }
            }
        }
        let sqrt_price_next_tick = sqrt_price_at_tick_internal(next_tick);
        // target price: the next tick's price, never beyond the caller's
        // limit, and never behind the current price
        let sqrt_price_target: u128 = if zero_for_one {
            let t = if sqrt_price_next_tick >= sqrt_price_limit_x64 {
                sqrt_price_next_tick
            } else {
                sqrt_price_limit_x64
            };
            if t > state.sqrt_price_x64 {
                state.sqrt_price_x64
            } else {
                t
            }
        } else {
            let t = if sqrt_price_next_tick <= sqrt_price_limit_x64 {
                sqrt_price_next_tick
            } else {
                sqrt_price_limit_x64
            };
            if t < state.sqrt_price_x64 {
                state.sqrt_price_x64
            } else {
                t
            }
        };
        let step = match compute_swap_step(
            state.sqrt_price_x64,
            sqrt_price_target,
            state.liquidity,
            state.amount_remaining,
            fee_rate,
            zero_for_one,
        ) {
            Ok(v) => v,
            Err(_) => {
                proof {
                    assert(sim.overflow);
                }
                return Err(SwapError::MathOverflow);
            },
        };
        let (sqrt_price_next, amount_in_step, amount_out_step, fee_amount) = step;
        // consume input, accumulate output
        state.amount_remaining = state.amount_remaining - (amount_in_step + fee_amount);
        state.amount_calculated = match state.amount_calculated.checked_add(amount_out_step) {
            Some(v) => v,
            None => {
                proof {
                    assert(sim.overflow);
                }
                return Err(SwapError::MathOverflow);
            },
        };
        // accrue fee growth per unit of active liquidity; the global
        // accumulator only ever grows — modular arithmetic is for reading
        // deltas out of it, not for accumulating into it — so growth past
        // the width is an error here, never a silent wrap
        if state.liquidity > 0 && fee_amount > 0 {
            let fee_growth_delta = ((fee_amount as u128) * Q64) / state.liquidity;
            state.fee_growth_global = match state.fee_growth_global.checked_add(
                fee_growth_delta,
            ) {
                Some(v) => v,
                None => {
                    proof {
                        assert(sim.overflow);
                    }
                    return Err(SwapError::MathOverflow);
                },
            };
        }
        state.sqrt_price_x64 = sqrt_price_next;
        // the step the spec-level run takes from this state is this step
        let ghost s_fslot: int = if zero_for_one {
            spec_find_down(ticks_pre, cur_slot)
        } else {
            spec_find_up(ticks_pre, cur_slot)
        };
        let ghost s_found: bool = if zero_for_one {
            s_fslot >= 0
        } else {
            s_fslot < 60
        };
        let ghost s_slot: int = if !s_found {
            if zero_for_one {
                0int
            } else {
                59int
            }
        } else {
            s_fslot
        };
        let ghost s_tickprice: u128 = spec_sqrt_price_at_tick(start_i + s_slot * spacing_i)
            as u128;
        let ghost s_target: u128 = if zero_for_one {
            let t0 = if s_tickprice >= sqrt_price_limit_x64 {
                s_tickprice
            } else {
                sqrt_price_limit_x64
            };
            if t0 > price_pre {
                price_pre
            } else {
                t0
            }
        } else {
            let t0 = if s_tickprice <= sqrt_price_limit_x64 {
                s_tickprice
            } else {
                sqrt_price_limit_x64
            };
            if t0 < price_pre {
                price_pre
            } else {
                t0
            }
        };
        proof {
            assert(s_found == found);
            assert(s_slot == slot as int);
            assert(next_tick as int == start_i + s_slot * spacing_i);
            assert(s_tickprice == sqrt_price_next_tick);
            assert(s_target == sqrt_price_target);
        }
        if found && sqrt_price_next == sqrt_price_next_tick {
            // the tick was crossed: flip its outside fee growth and apply
            // its net liquidity, using the updated accumulator for the
            // input token and the pool's stored one for the other
            let t = page.ticks[slot];
            let g0 = if zero_for_one {
                state.fee_growth_global
            } else {
                pool.fee_growth_global_0
            };
            let g1 = if zero_for_one {
                pool.fee_growth_global_1
            } else {
                state.fee_growth_global
            };
            let new_t = TickState {
                fee_growth_outside_0: g0.wrapping_sub(t.fee_growth_outside_0),
                fee_growth_outside_1: g1.wrapping_sub(t.fee_growth_outside_1),
                ..t
            };
            let ghost old_ticks = page.ticks@;
            page.ticks[slot] = new_t;
            proof {
                lemma_sum_net_update(old_ticks, slot as int, new_t);
            }
            let net = t.liquidity_net;
            proof {
                if net < 0 {
                    assert((((-(net + 1)) as u128) + 1) as int == -(net as int));
                }
            }
            if zero_for_one {
                // moving down: active liquidity loses this tick's net
                if net >= 0 {
                    let mag = net as u128;
                    state.liquidity = if state.liquidity >= mag {
                        state.liquidity - mag
                    } else {
                        0
                    };
                } else {
                    let mag = ((-(net + 1)) as u128) + 1;
                    state.liquidity = match state.liquidity.checked_add(mag) {
                        Some(v) => v,
                        None => {
                            proof {
                                assert(sim.overflow);
                            }
                            return Err(SwapError::MathOverflow);
                        },
                    };
                }
            } else {
                // moving up: active liquidity gains this tick's net
                if net >= 0 {
                    let mag = net as u128;
                    state.liquidity = match state.liquidity.checked_add(mag) {
                        Some(v) => v,
                        None => {
                            proof {
                                assert(sim.overflow);
                            }
                            return Err(SwapError::MathOverflow);
                        },
                    };
                } else {
                    let mag = ((-(net + 1)) as u128) + 1;
                    state.liquidity = if state.liquidity >= mag {
                        state.liquidity - mag
                    } else {
                        0
                    };
                }
            }
            // advance the cursor past the crossed tick; at the page edge
            // the swap ends as a partial fill
            proof {
                let sp: int = tick_spacing as int;
                let off: int = state.tick - page.start_tick_index;
                let cs: int = off / sp;
                vstd::arithmetic::div_mod::lemma_fundamental_div_mod(off, sp);
                if zero_for_one {
                    assert((slot as int) * sp <= cs * sp) by (nonlinear_arith)
                        requires
                            slot <= cs,
                            sp >= 1,
                    ;
                    if slot >= 1 {
                        assert(1 * sp <= (slot as int) * sp) by (nonlinear_arith)
                            requires
                                slot >= 1,
                                sp >= 1,
                        ;
                    }
                } else {
                    assert((slot as int) * sp > off) by (nonlinear_arith)
                        requires
                            off == sp * cs + off % sp,
                            off % sp < sp,
                            slot >= cs + 1,
                            sp >= 1,
                    ;
                    assert((slot as int) * sp <= 59 * sp) by (nonlinear_arith)
                        requires
                            slot <= 59,
                            sp >= 1,
                    ;
                }
            }
            proof {
                assert(page.ticks@ =~= ticks_pre.update(slot as int, new_t));
            }
            if zero_for_one {
                if slot == 0 {
                    proof {
                        assert(sim == (SwapSim {
                            overflow: false,
                            amount_remaining: state.amount_remaining,
                            amount_calculated: state.amount_calculated,
                            sqrt_price_x64: state.sqrt_price_x64,
                            liquidity: state.liquidity,
                            fee_growth_global: state.fee_growth_global,
                            ticks: page.ticks@,
                        }));
                    }
                    break ;
                }
                state.tick = next_tick - 1;
            } else {
                if slot == 59 {
                    proof {
                        assert(sim == (SwapSim {
                            overflow: false,
                            amount_remaining: state.amount_remaining,
                            amount_calculated: state.amount_calculated,
                            sqrt_price_x64: state.sqrt_price_x64,
                            liquidity: state.liquidity,
                            fee_growth_global: state.fee_growth_global,
                            ticks: page.ticks@,
                        }));
                    }
                    break ;
                }
                state.tick = next_tick;
            }
            proof {
                assert(spec_swap_run(
                    page.ticks@,
                    start_i,
                    spacing_i,
                    pool.fee_growth_global_0,
                    pool.fee_growth_global_1,
                    fee_rate,
                    zero_for_one,
                    sqrt_price_limit_x64,
                    state.amount_remaining,
                    state.amount_calculated,
                    state.sqrt_price_x64,
                    state.tick as int,
                    state.liquidity,
                    state.fee_growth_global,
                ) == sim);
                // the cursor moved strictly toward the page edge
                assert(zero_for_one ==> 0 <= state.tick - page.start_tick_index < tick_pre
                    - start_i);
                assert(!zero_for_one ==> 0 <= page.start_tick_index + 60 * (
                tick_spacing as int) - state.tick < start_i + 60 * spacing_i - tick_pre);
            }
        } else {
            // the budget ran out or the limit was hit before the next
            // initialized tick
            proof {
                assert(sim == (SwapSim {
                    overflow: false,
                    amount_remaining: state.amount_remaining,
                    amount_calculated: state.amount_calculated,
                    sqrt_price_x64: state.sqrt_price_x64,
                    liquidity: state.liquidity,
                    fee_growth_global: state.fee_growth_global,
                    ticks: page.ticks@,
                }));
            }
            break ;
        }
    }
    // slippage check before anything is written back
    if state.amount_calculated < minimum_amount_out {
        return Err(SwapError::SlippageExceeded);
    }
    let tick_current = match get_tick_at_sqrt_price(state.sqrt_price_x64) {
        Ok(t) => t,
        Err(_) => {
            proof {
                assert(false);
            }
            return Err(SwapError::MathOverflow);
        },
    };
    // commit
    pool.sqrt_price_x64 = state.sqrt_price_x64;
    pool.tick_current = tick_current;
    pool.liquidity = state.liquidity;
    if zero_for_one {
        pool.fee_growth_global_0 = state.fee_growth_global;
    } else {
        pool.fee_growth_global_1 = state.fee_growth_global;
    }
    *tick_array = page;
    Ok((amount_in - state.amount_remaining, state.amount_calculated))
}

} // verus!
