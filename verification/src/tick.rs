//! Tick state: per-tick liquidity bookkeeping, grouped into fixed pages of
//! 60 contiguous initializable ticks.

use vstd::prelude::*;
use crate::errors::LiquidityError;
use crate::tick_math::{MIN_TICK, MAX_TICK};

verus! {

/// The number of tick slots in one page.
pub const TICK_ARRAY_SIZE: usize = 60;

/// The state of one initializable tick.
#[derive(Clone, Copy, Debug, PartialEq, Eq, Structural)]
pub struct TickState {
    /// Whether some position has ever referenced this tick.
    pub initialized: bool,
    /// Total liquidity of all positions referencing this tick.
    pub liquidity_gross: u128,
    /// Signed liquidity change applied when the price crosses this tick
    /// moving upward.
    pub liquidity_net: i128,
    /// Fee growth on the side of this tick away from the current price,
    /// token 0 (Q64.64, may wrap).
    pub fee_growth_outside_0: u128,
    /// Fee growth on the side of this tick away from the current price,
    /// token 1 (Q64.64, may wrap).
    pub fee_growth_outside_1: u128,
}

impl TickState {
    /// A tick that no position has touched yet, as a specification value.
    pub open spec fn spec_empty() -> TickState {
        TickState {
            initialized: false,
            liquidity_gross: 0,
            liquidity_net: 0,
            fee_growth_outside_0: 0,
            fee_growth_outside_1: 0,
        }
    }

    /// A tick that no position has touched yet.
    pub fn empty() -> (r: TickState)
        ensures
            r == TickState::spec_empty(),
    {
        TickState {
            initialized: false,
            liquidity_gross: 0,
            liquidity_net: 0,
            fee_growth_outside_0: 0,
            fee_growth_outside_1: 0,
        }
    }
}

/// The sum of the signed liquidity deltas of a sequence of ticks.
pub open spec fn sum_net(ticks: Seq<TickState>) -> int
    decreases ticks.len(),
{
    if ticks.len() == 0 {
        0
    } else {
        sum_net(ticks.drop_last()) + ticks.last().liquidity_net
    }
}

/// One page of 60 contiguous tick slots; slot `i` describes tick
/// `start_tick_index + i * tick_spacing`.
pub struct TickArrayState {
    /// Identifier of the pool the page belongs to.
    pub pool_id: u64,
    /// Tick described by slot 0.
    pub start_tick_index: i32,
    /// The 60 tick slots.
    pub ticks: Vec<TickState>,
}

impl TickArrayState {
    /// Well-formedness: exactly 60 slots, all of them ticks in range.
    pub open spec fn wf(self, tick_spacing: u16) -> bool {
        &&& self.ticks.len() == 60
        &&& tick_spacing >= 1
        &&& MIN_TICK <= self.start_tick_index
        &&& self.start_tick_index + 59 * (tick_spacing as int) <= MAX_TICK
    }

    /// The tick index described by a slot of this page.
    pub open spec fn spec_tick_of_slot(self, slot: int, tick_spacing: u16) -> int {
        self.start_tick_index + slot * (tick_spacing as int)
    }

    /// A fresh page of empty ticks.
    pub fn new(pool_id: u64, start_tick_index: i32, tick_spacing: u16) -> (r: TickArrayState)
        requires
            tick_spacing >= 1,
            MIN_TICK <= start_tick_index,
            start_tick_index + 59 * (tick_spacing as int) <= MAX_TICK,
        ensures
            r.wf(tick_spacing),
            r.pool_id == pool_id,
            r.start_tick_index == start_tick_index,
            forall|i: int| 0 <= i < 60 ==> r.ticks[i] == TickState::spec_empty(),
            sum_net(r.ticks@) == 0,
    {
        let mut ticks: Vec<TickState> = Vec::new();
        let mut i: usize = 0;
        while i < 60
            invariant
                i <= 60,
                ticks.len() == i,
                forall|j: int| 0 <= j < i ==> ticks[j] == TickState::spec_empty(),
                sum_net(ticks@) == 0,
            decreases 60 - i,
        {
            let ghost prev = ticks@;
            ticks.push(TickState::empty());
            proof {
                assert(ticks@.drop_last() =~= prev);
            }
            i = i + 1;
        }
        TickArrayState { pool_id, start_tick_index, ticks }
    }

    /// The slot of `tick` in this page. Fails with `TickOutOfPage` exactly
    /// when `tick` is below the page, beyond its 60 slots, or not on the
    /// page's spacing grid.
    pub fn tick_index_in_page(&self, tick_spacing: u16, tick: i32) -> (r: Result<
        usize,
        LiquidityError,
    >)
        requires
            self.wf(tick_spacing),
            MIN_TICK <= tick <= MAX_TICK,
        ensures
            match r {
                Ok(slot) => slot < 60 && tick == self.spec_tick_of_slot(slot as int, tick_spacing),
                Err(e) => e == LiquidityError::TickOutOfPage && forall|slot: int|
                    0 <= slot < 60 ==> tick != self.spec_tick_of_slot(slot, tick_spacing),
            },
    {
        if tick < self.start_tick_index {
            proof {
                lemma_no_slot_outside(*self, tick_spacing, tick as int);
            }
            return Err(LiquidityError::TickOutOfPage);
        }
        let offset = (tick - self.start_tick_index) as u32;
        let s = tick_spacing as u32;
        let slot = offset / s;
        let rem = offset % s;
        if rem != 0 || slot >= 60 {
            proof {
                vstd::arithmetic::div_mod::lemma_fundamental_div_mod(offset as int, s as int);
                if slot >= 60 {
                    assert(offset >= 60 * (s as int)) by (nonlinear_arith)
                        requires
                            offset as int == (s as int) * (slot as int) + rem,
                            rem >= 0,
                            slot >= 60,
                            s >= 1,
                    ;
                }
                lemma_no_slot_outside(*self, tick_spacing, tick as int);
            }
            return Err(LiquidityError::TickOutOfPage);
        }
        proof {
            vstd::arithmetic::div_mod::lemma_fundamental_div_mod(offset as int, s as int);
            vstd::arithmetic::mul::lemma_mul_is_commutative(s as int, slot as int);
        }
        Ok(slot as usize)
    }

    /// Reads one tick slot.
    pub fn get(&self, slot: usize) -> (r: TickState)
        requires
            slot < 60,
            self.ticks.len() == 60,
        ensures
            r == self.ticks[slot as int],
    {
        self.ticks[slot]
    }
}

/// No slot of the page holds `tick` when `tick` misses the page's grid.
proof fn lemma_no_slot_outside(page: TickArrayState, tick_spacing: u16, tick: int)
    requires
        page.wf(tick_spacing),
        tick < page.start_tick_index
            || (tick - page.start_tick_index) % (tick_spacing as int) != 0
            || tick >= page.start_tick_index + 60 * (tick_spacing as int),
    ensures
        forall|slot: int| 0 <= slot < 60 ==> tick != page.spec_tick_of_slot(slot, tick_spacing),
{
    let s: int = tick_spacing as int;
    assert forall|slot: int| 0 <= slot < 60 implies tick != page.spec_tick_of_slot(
        slot,
        tick_spacing,
    ) by {
        if tick == page.start_tick_index + slot * s {
            let offset: int = slot * s;
            assert(offset >= 0 && offset < 60 * s) by (nonlinear_arith)
                requires
                    0 <= slot < 60,
                    s >= 1,
                    offset == slot * s,
            ;
            vstd::arithmetic::div_mod::lemma_mod_multiples_basic(slot, s);
            assert(offset % s == 0);
        }
    }
}


/// The state a liquidity change leaves one tick in: gross moves by the
/// delta up or down, net moves by the delta signed by the range bound, and
/// a tick gaining its first liquidity is marked initialized.
pub open spec fn spec_tick_after_change(
    t: TickState,
    liquidity_delta: u128,
    add: bool,
    is_upper_bound: bool,
) -> TickState {
    let net_delta: int = if add == is_upper_bound {
        -(liquidity_delta as int)
    } else {
        liquidity_delta as int
    };
    TickState {
        initialized: t.initialized || (add && liquidity_delta > 0),
        liquidity_gross: if add {
            (t.liquidity_gross + liquidity_delta) as u128
        } else {
            (t.liquidity_gross - liquidity_delta) as u128
        },
        liquidity_net: (t.liquidity_net + net_delta) as i128,
        ..t
    }
}

/// Applies a liquidity change to one tick slot: the gross amount moves by
/// `liquidity_delta` up or down, and the net amount moves by
/// `liquidity_delta` signed by which range bound the tick is and whether
/// liquidity is added or removed. Marks the tick initialized when its gross
/// liquidity becomes positive; a tick whose gross liquidity later returns
/// to zero keeps the mark, which costs only scan time, never correctness
/// of amounts. On any error the page is unchanged.
pub fn update_on_liquidity_change(
    page: &mut TickArrayState,
    slot: usize,
    liquidity_delta: u128,
    add: bool,
    is_upper_bound: bool,
) -> (r: Result<(), LiquidityError>)
    requires
        slot < 60,
        old(page).ticks.len() == 60,
    ensures
        final(page).pool_id == old(page).pool_id,
        final(page).start_tick_index == old(page).start_tick_index,
        final(page).ticks.len() == 60,
        match r {
            Ok(()) => {
                let t = old(page).ticks[slot as int];
                let net_delta: int = if add == is_upper_bound {
                    -(liquidity_delta as int)
                } else {
                    liquidity_delta as int
                };
                &&& (add ==> t.liquidity_gross + liquidity_delta
                    <= u128::MAX)
                &&& (!add ==> liquidity_delta <= t.liquidity_gross)
                &&& i128::MIN <= t.liquidity_net + net_delta <= i128::MAX
                &&& final(page).ticks@ =~= old(page).ticks@.update(
                    slot as int,
                    spec_tick_after_change(t, liquidity_delta, add, is_upper_bound),
                )
            },
            Err(e) => {
                let t = old(page).ticks[slot as int];
                let net_delta: int = if add == is_upper_bound {
                    -(liquidity_delta as int)
                } else {
                    liquidity_delta as int
                };
                &&& *final(page) == *old(page)
                &&& (e == LiquidityError::LiquidityUnderflow || e
                    == LiquidityError::MathOverflow)
                &&& (e == LiquidityError::LiquidityUnderflow <==> (!add && liquidity_delta
                    > t.liquidity_gross))
                &&& (e == LiquidityError::MathOverflow ==> ((add && t.liquidity_gross
                    + liquidity_delta > u128::MAX) || liquidity_delta > i128::MAX
                    || !(i128::MIN <= t.liquidity_net + net_delta <= i128::MAX)))
            },
        },
{
    let t = page.ticks[slot];
    let new_gross: u128;
    if add {
        new_gross = match t.liquidity_gross.checked_add(liquidity_delta) {
            Some(v) => v,
            None => {
                return Err(LiquidityError::MathOverflow);
            },
        };
    } else {
        if liquidity_delta > t.liquidity_gross {
            return Err(LiquidityError::LiquidityUnderflow);
        }
        new_gross = t.liquidity_gross - liquidity_delta;
    }
    if liquidity_delta > i128::MAX as u128 {
        return Err(LiquidityError::MathOverflow);
    }
    let signed_delta: i128 = liquidity_delta as i128;
    let new_net: i128;
    if add != is_upper_bound {
        new_net = match t.liquidity_net.checked_add(signed_delta) {
            Some(v) => v,
            None => {
                return Err(LiquidityError::MathOverflow);
            },
        };
    } else {
        new_net = match t.liquidity_net.checked_sub(signed_delta) {
            Some(v) => v,
            None => {
                return Err(LiquidityError::MathOverflow);
            },
        };
    }
    let new_tick = TickState {
        initialized: t.initialized || (add && liquidity_delta > 0),
        liquidity_gross: new_gross,
        liquidity_net: new_net,
        ..t
    };
    page.ticks[slot] = new_tick;
    Ok(())
}


/// Updating one slot moves the net-liquidity sum by exactly the change in
/// that slot's `liquidity_net`.
pub proof fn lemma_sum_net_update(ticks: Seq<TickState>, i: int, t: TickState)
    requires
        0 <= i < ticks.len(),
    ensures
        sum_net(ticks.update(i, t)) == sum_net(ticks) + t.liquidity_net
            - ticks[i].liquidity_net,
    decreases ticks.len(),
{
    let upd = ticks.update(i, t);
    if i == ticks.len() - 1 {
        assert(upd.drop_last() =~= ticks.drop_last());
        assert(upd.last() == t);
    } else {
        assert(upd.drop_last() =~= ticks.drop_last().update(i, t));
        assert(upd.last() == ticks.last());
        lemma_sum_net_update(ticks.drop_last(), i, t);
    }
}

} // verus!
