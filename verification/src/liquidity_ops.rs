//! Liquidity changes: adding liquidity to and removing it from a position,
//! as one transaction-like operation that settles fees first (with the old
//! liquidity), then touches both boundary ticks symmetrically, the
//! position, and the pool.
//!
//! Every check happens before any write, so a failure leaves the pool, the
//! position and the tick pages exactly as they were. The token transfers
//! the returned amounts call for are the caller's concern.

use vstd::prelude::*;
use crate::errors::LiquidityError;
use crate::fee_math::{calculate_tokens_owed, get_fee_growth_inside, spec_fee_growth_inside, spec_tokens_owed};
use crate::liquidity_math::{
    spec_price_product, get_amounts_0_from_liquidity, get_amounts_1_from_liquidity, get_liquidity_from_amount_0,
    get_liquidity_from_amount_1, spec_amount_0_from_liquidity, spec_amount_1_from_liquidity,
    spec_liquidity_from_amount_0, spec_liquidity_from_amount_1,
};
use crate::pool::LpPoolStateShape;
use crate::position::Position;
use crate::tick::{spec_tick_after_change, sum_net, update_on_liquidity_change, TickArrayState, TickState};
use crate::tick_math::{spec_sqrt_price_at_tick, sqrt_price_at_tick_internal};
use crate::tick_math_proofs::{lemma_sqrt_price_in_range, lemma_sqrt_price_monotonic};

verus! {

/// The signed-liquidity sum over an arena of tick pages.
pub open spec fn total_net(pages: Seq<TickArrayState>) -> int
    decreases pages.len(),
{
    if pages.len() == 0 {
        0
    } else {
        total_net(pages.drop_last()) + sum_net(pages.last().ticks@)
    }
}

/// Replacing one page moves the arena's net sum by the change in that
/// page's sum.
pub proof fn lemma_total_net_update(pages: Seq<TickArrayState>, i: int, p: TickArrayState)
    requires
        0 <= i < pages.len(),
    ensures
        total_net(pages.update(i, p)) == total_net(pages) + sum_net(p.ticks@)
            - sum_net(pages[i].ticks@),
    decreases pages.len(),
{
    let upd = pages.update(i, p);
    if i == pages.len() - 1 {
        assert(upd.drop_last() =~= pages.drop_last());
        assert(upd.last() == p);
    } else {
        assert(upd.drop_last() =~= pages.drop_last().update(i, p));
        assert(upd.last() == pages.last());
        lemma_total_net_update(pages.drop_last(), i, p);
    }
}

/// The liquidity an increase buys, by price region: below the range only
/// token 0 counts, above it only token 1, inside it the tighter of the
/// two.
pub open spec fn spec_derived_liquidity(
    sqrt_price_current: u128,
    sqrt_price_lower: u128,
    sqrt_price_upper: u128,
    token_0_amount: u64,
    token_1_amount: u64,
) -> int {
    if sqrt_price_current <= sqrt_price_lower {
        spec_liquidity_from_amount_0(sqrt_price_lower, sqrt_price_upper, token_0_amount)
    } else if sqrt_price_current >= sqrt_price_upper {
        spec_liquidity_from_amount_1(sqrt_price_lower, sqrt_price_upper, token_1_amount)
    } else {
        let l0 = spec_liquidity_from_amount_0(
            sqrt_price_current,
            sqrt_price_upper,
            token_0_amount,
        );
        let l1 = spec_liquidity_from_amount_1(
            sqrt_price_lower,
            sqrt_price_current,
            token_1_amount,
        );
        if l0 < l1 {
            l0
        } else {
            l1
        }
    }
}

/// The token amounts a liquidity change of `liquidity` moves, by price
/// region.
pub open spec fn spec_region_amounts(
    sqrt_price_current: u128,
    sqrt_price_lower: u128,
    sqrt_price_upper: u128,
    liquidity: u128,
) -> (int, int) {
    if sqrt_price_current <= sqrt_price_lower {
        (spec_amount_0_from_liquidity(sqrt_price_lower, sqrt_price_upper, liquidity), 0)
    } else if sqrt_price_current >= sqrt_price_upper {
        (0, spec_amount_1_from_liquidity(sqrt_price_lower, sqrt_price_upper, liquidity))
    } else {
        (
            spec_amount_0_from_liquidity(sqrt_price_current, sqrt_price_upper, liquidity),
            spec_amount_1_from_liquidity(sqrt_price_lower, sqrt_price_current, liquidity),
        )
    }
}

/// What a liquidity operation requires of its inputs: a well-formed pool,
/// a well-formed position of that pool's spacing, and well-formed pages.
pub open spec fn liquidity_op_wf(
    pool: LpPoolStateShape,
    position: Position,
    pages: Seq<TickArrayState>,
) -> bool {
    &&& pool.wf()
    &&& position.wf(pool.tick_spacing)
    &&& forall|i: int| 0 <= i < pages.len() ==> #[trigger] pages[i].wf(pool.tick_spacing)
}

/// Whether some slot of some page of the arena describes `tick`.
pub open spec fn arena_holds(pages: Seq<TickArrayState>, tick_spacing: u16, tick: int) -> bool {
    exists|i: int, s: int|
        0 <= i < pages.len() && 0 <= s < 60 && tick == #[trigger] pages[i].spec_tick_of_slot(
            s,
            tick_spacing,
        )
}


/// The slot of `tick` in one page, or -1 when the page does not cover it.
pub open spec fn spec_page_slot(page: TickArrayState, tick_spacing: u16, tick: int) -> int {
    let s = tick_spacing as int;
    let off = tick - page.start_tick_index;
    if off >= 0 && off % s == 0 && off / s < 60 {
        off / s
    } else {
        -1
    }
}

/// The first page at or after index `i` whose grid covers `tick`, or -1.
pub open spec fn spec_first_page_from(
    pages: Seq<TickArrayState>,
    tick_spacing: u16,
    tick: int,
    i: int,
) -> int
    decreases pages.len() - i,
{
    if i < 0 || i >= pages.len() {
        -1
    } else if spec_page_slot(pages[i], tick_spacing, tick) >= 0 {
        i
    } else {
        spec_first_page_from(pages, tick_spacing, tick, i + 1)
    }
}

/// Whether the arena covers `tick` at all.
pub open spec fn spec_located(pages: Seq<TickArrayState>, tick_spacing: u16, tick: int) -> bool {
    spec_first_page_from(pages, tick_spacing, tick, 0) >= 0
}

/// The stored state of `tick`, read from the first page covering it.
pub open spec fn spec_tick_state(
    pages: Seq<TickArrayState>,
    tick_spacing: u16,
    tick: int,
) -> TickState {
    let p = spec_first_page_from(pages, tick_spacing, tick, 0);
    pages[p].ticks[spec_page_slot(pages[p], tick_spacing, tick)]
}

/// A page's slot arithmetic: the slot is nonnegative exactly when some
/// slot's tick equals `tick`, and then names that slot.
proof fn lemma_page_slot_char(page: TickArrayState, tick_spacing: u16, tick: int, slot: int)
    requires
        tick_spacing >= 1,
        0 <= slot < 60,
        tick == page.spec_tick_of_slot(slot, tick_spacing),
    ensures
        spec_page_slot(page, tick_spacing, tick) == slot,
{
    let s: int = tick_spacing as int;
    let off: int = tick - page.start_tick_index;
    assert(off == slot * s);
    assert(off >= 0 && off == s * slot) by (nonlinear_arith)
        requires
            off == slot * s,
            0 <= slot,
            s >= 1,
    ;
    vstd::arithmetic::div_mod::lemma_mod_multiples_basic(slot, s);
    assert(off % s == 0);
    vstd::arithmetic::div_mod::lemma_div_multiples_vanish(slot, s);
    assert(off / s == slot);
}

/// A page whose grid misses `tick` has a negative slot.
proof fn lemma_page_slot_none(page: TickArrayState, tick_spacing: u16, tick: int)
    requires
        tick_spacing >= 1,
        forall|slot: int| 0 <= slot < 60 ==> tick != page.spec_tick_of_slot(slot, tick_spacing),
    ensures
        spec_page_slot(page, tick_spacing, tick) == -1,
{
    let s: int = tick_spacing as int;
    let off: int = tick - page.start_tick_index;
    if off >= 0 && off % s == 0 && off / s < 60 {
        let slot = off / s;
        vstd::arithmetic::div_mod::lemma_fundamental_div_mod(off, s);
        assert(off == s * slot);
        assert(slot >= 0) by (nonlinear_arith)
            requires
                off == s * slot,
                off >= 0,
                s >= 1,
        ;
        vstd::arithmetic::mul::lemma_mul_is_commutative(s, slot);
        assert(tick == page.spec_tick_of_slot(slot, tick_spacing));
    }
}

/// Finds the page of the arena holding `tick`, and its slot there: the
/// first covering page, as `spec_first_page_from` names it. Fails with
/// `TickOutOfPage` exactly when no page of the arena covers `tick`.
fn locate_tick(pages: &Vec<TickArrayState>, tick_spacing: u16, tick: i32) -> (r: Result<
    (usize, usize),
    LiquidityError,
>)
    requires
        forall|i: int| 0 <= i < pages.len() ==> #[trigger] pages[i].wf(tick_spacing),
        crate::tick_math::MIN_TICK <= tick <= crate::tick_math::MAX_TICK,
    ensures
        match r {
            Ok(loc) => loc.0 < pages.len() && loc.1 < 60 && tick == pages[loc.0 as int]
                .spec_tick_of_slot(loc.1 as int, tick_spacing) && loc.0
                == spec_first_page_from(pages@, tick_spacing, tick as int, 0) && loc.1
                == spec_page_slot(pages[loc.0 as int], tick_spacing, tick as int),
            Err(e) => e == LiquidityError::TickOutOfPage && !arena_holds(
                pages@,
                tick_spacing,
                tick as int,
            ) && !spec_located(pages@, tick_spacing, tick as int),
        },
{
    let mut i: usize = 0;
    while i < pages.len()
        invariant
            i <= pages.len(),
            forall|k: int| 0 <= k < pages.len() ==> #[trigger] pages[k].wf(tick_spacing),
            crate::tick_math::MIN_TICK <= tick <= crate::tick_math::MAX_TICK,
            forall|k: int, s: int|
                0 <= k < i && 0 <= s < 60 ==> tick != #[trigger] pages[k].spec_tick_of_slot(
                    s,
                    tick_spacing,
                ),
            spec_first_page_from(pages@, tick_spacing, tick as int, 0)
                == spec_first_page_from(pages@, tick_spacing, tick as int, i as int),
        decreases pages.len() - i,
    {
        match pages[i].tick_index_in_page(tick_spacing, tick) {
            Ok(slot) => {
                proof {
                    assert(pages@[i as int].wf(tick_spacing));
                    lemma_page_slot_char(pages@[i as int], tick_spacing, tick as int,
                        slot as int);
                }
                return Ok((i, slot));
            },
            Err(_) => {
                proof {
                    assert(pages@[i as int].wf(tick_spacing));
                    lemma_page_slot_none(pages@[i as int], tick_spacing, tick as int);
                }
            },
        }
        i = i + 1;
    }
    Err(LiquidityError::TickOutOfPage)
}




/// Which error a liquidity change stops with, checked in the order the
/// operation checks them, or `None` when every width fits and the change
/// goes through.
pub open spec fn spec_apply_outcome(
    pool: LpPoolStateShape,
    position: Position,
    pages: Seq<TickArrayState>,
    liquidity_delta: u128,
    add: bool,
) -> Option<LiquidityError> {
    let spacing = pool.tick_spacing;
    if !spec_located(pages, spacing, position.tick_lower as int) {
        Some(LiquidityError::TickOutOfPage)
    } else if !spec_located(pages, spacing, position.tick_upper as int) {
        Some(LiquidityError::TickOutOfPage)
    } else {
        let lt = spec_tick_state(pages, spacing, position.tick_lower as int);
        let ut = spec_tick_state(pages, spacing, position.tick_upper as int);
        let inside_0 = spec_fee_growth_inside(
            position.tick_lower as int,
            position.tick_upper as int,
            pool.tick_current as int,
            pool.fee_growth_global_0,
            lt.fee_growth_outside_0,
            ut.fee_growth_outside_0,
        );
        let inside_1 = spec_fee_growth_inside(
            position.tick_lower as int,
            position.tick_upper as int,
            pool.tick_current as int,
            pool.fee_growth_global_1,
            lt.fee_growth_outside_1,
            ut.fee_growth_outside_1,
        );
        let d0 = spec_tokens_owed(inside_0, position.fee_growth_inside_0_last,
            position.liquidity);
        let d1 = spec_tokens_owed(inside_1, position.fee_growth_inside_1_last,
            position.liquidity);
        let in_range = position.tick_lower <= pool.tick_current < position.tick_upper;
        if d0 > u64::MAX || d1 > u64::MAX || position.tokens_owed_0 + d0 > u64::MAX
            || position.tokens_owed_1 + d1 > u64::MAX {
            Some(LiquidityError::MathOverflow)
        } else if add && position.liquidity + liquidity_delta > u128::MAX {
            Some(LiquidityError::MathOverflow)
        } else if in_range && add && pool.liquidity + liquidity_delta > u128::MAX {
            Some(LiquidityError::MathOverflow)
        } else if in_range && !add && pool.liquidity < liquidity_delta {
            Some(LiquidityError::MathOverflow)
        } else if liquidity_delta > i128::MAX {
            Some(LiquidityError::MathOverflow)
        } else if add && (lt.liquidity_gross + liquidity_delta > u128::MAX
            || lt.liquidity_net + liquidity_delta > i128::MAX
            || ut.liquidity_gross + liquidity_delta > u128::MAX
            || ut.liquidity_net - liquidity_delta < i128::MIN) {
            Some(LiquidityError::MathOverflow)
        } else if !add && (liquidity_delta > lt.liquidity_gross || liquidity_delta
            > ut.liquidity_gross) {
            Some(LiquidityError::LiquidityUnderflow)
        } else if !add && (lt.liquidity_net - liquidity_delta < i128::MIN
            || ut.liquidity_net + liquidity_delta > i128::MAX) {
            Some(LiquidityError::MathOverflow)
        } else {
            None
        }
    }
}

/// The transaction core of a liquidity change: settles fees with the old
/// liquidity, then applies `liquidity_delta` to both boundary ticks, the
/// position, and (when the range holds the current tick) the pool. Both
/// boundary ticks are always touched together, so the signed net sum over
/// the arena is unchanged. Every check precedes every write.
fn apply_liquidity_delta(
    pool: &mut LpPoolStateShape,
    position: &mut Position,
    pages: &mut Vec<TickArrayState>,
    liquidity_delta: u128,
    add: bool,
    amount_0: u64,
    amount_1: u64,
) -> (r: Result<(u64, u64), LiquidityError>)
    requires
        liquidity_op_wf(*old(pool), *old(position), old(pages)@),
        liquidity_delta >= 1,
        !add ==> liquidity_delta <= old(position).liquidity,
    ensures
        ({
            let in_range = old(position).tick_lower <= old(pool).tick_current
                < old(position).tick_upper;
            match r {
                Ok(amounts) => {
                    &&& spec_apply_outcome(*old(pool), *old(position), old(pages)@,
                        liquidity_delta, add) is None
                    &&& amounts.0 == amount_0
                    &&& amounts.1 == amount_1
                    &&& (add ==> final(position).liquidity == old(position).liquidity
                        + liquidity_delta)
                    &&& (!add ==> final(position).liquidity == old(position).liquidity
                        - liquidity_delta)
                    &&& final(position).tick_lower == old(position).tick_lower
                    &&& final(position).tick_upper == old(position).tick_upper
                    &&& final(position).pool_id == old(position).pool_id
                    &&& final(position).owner == old(position).owner
                    &&& final(position).tokens_owed_0 == old(position).tokens_owed_0
                        + spec_tokens_owed(
                        final(position).fee_growth_inside_0_last,
                        old(position).fee_growth_inside_0_last,
                        old(position).liquidity,
                    )
                    &&& final(position).tokens_owed_1 == old(position).tokens_owed_1
                        + spec_tokens_owed(
                        final(position).fee_growth_inside_1_last,
                        old(position).fee_growth_inside_1_last,
                        old(position).liquidity,
                    )
                    &&& final(position).fee_growth_inside_0_last == spec_fee_growth_inside(
                        old(position).tick_lower as int,
                        old(position).tick_upper as int,
                        old(pool).tick_current as int,
                        old(pool).fee_growth_global_0,
                        spec_tick_state(old(pages)@, old(pool).tick_spacing,
                            old(position).tick_lower as int).fee_growth_outside_0,
                        spec_tick_state(old(pages)@, old(pool).tick_spacing,
                            old(position).tick_upper as int).fee_growth_outside_0,
                    )
                    &&& final(position).fee_growth_inside_1_last == spec_fee_growth_inside(
                        old(position).tick_lower as int,
                        old(position).tick_upper as int,
                        old(pool).tick_current as int,
                        old(pool).fee_growth_global_1,
                        spec_tick_state(old(pages)@, old(pool).tick_spacing,
                            old(position).tick_lower as int).fee_growth_outside_1,
                        spec_tick_state(old(pages)@, old(pool).tick_spacing,
                            old(position).tick_upper as int).fee_growth_outside_1,
                    )
                    &&& ({
                        let spacing = old(pool).tick_spacing;
                        let lower = old(position).tick_lower as int;
                        let upper = old(position).tick_upper as int;
                        let pl = spec_first_page_from(old(pages)@, spacing, lower, 0);
                        let sl = spec_page_slot(old(pages)@[pl], spacing, lower);
                        let pu = spec_first_page_from(old(pages)@, spacing, upper, 0);
                        let su = spec_page_slot(old(pages)@[pu], spacing, upper);
                        let new_lower = spec_tick_after_change(
                            spec_tick_state(old(pages)@, spacing, lower),
                            liquidity_delta,
                            add,
                            false,
                        );
                        let new_upper = spec_tick_after_change(
                            spec_tick_state(old(pages)@, spacing, upper),
                            liquidity_delta,
                            add,
                            true,
                        );
                        &&& (forall|i: int|
                            0 <= i < final(pages).len() && i != pl && i != pu
                                ==> (#[trigger] final(pages)[i]).ticks@ == old(pages)[i].ticks@)
                        &&& (pl != pu ==> final(pages)[pl].ticks@ == old(pages)[pl].ticks@.update(
                            sl,
                            new_lower,
                        ) && final(pages)[pu].ticks@ == old(pages)[pu].ticks@.update(
                            su,
                            new_upper,
                        ))
                        &&& (pl == pu ==> final(pages)[pl].ticks@ == old(pages)[pl].ticks@.update(
                            sl,
                            new_lower,
                        ).update(su, new_upper))
                    })
                    &&& (in_range && add ==> final(pool).liquidity == old(pool).liquidity
                        + liquidity_delta)
                    &&& (in_range && !add ==> final(pool).liquidity == old(pool).liquidity
                        - liquidity_delta)
                    &&& (!in_range ==> final(pool).liquidity == old(pool).liquidity)
                    &&& *final(pool) == (LpPoolStateShape {
                        liquidity: final(pool).liquidity,
                        ..*old(pool)
                    })
                    &&& final(pages).len() == old(pages).len()
                    &&& forall|i: int| 0 <= i < final(pages).len()
                        ==> (#[trigger] final(pages)[i]).wf(old(pool).tick_spacing)
                        && final(pages)[i].start_tick_index == old(pages)[i].start_tick_index
                        && final(pages)[i].pool_id == old(pages)[i].pool_id
                    &&& total_net(final(pages)@) == total_net(old(pages)@)
                },
                Err(e) => {
                    &&& *final(pool) == *old(pool)
                    &&& *final(position) == *old(position)
                    &&& *final(pages) == *old(pages)
                    &&& spec_apply_outcome(*old(pool), *old(position), old(pages)@,
                        liquidity_delta, add) == Some(e)
                    &&& (e == LiquidityError::TickOutOfPage || e == LiquidityError::MathOverflow
                        || e == LiquidityError::LiquidityUnderflow)
                    &&& (e == LiquidityError::LiquidityUnderflow ==> !add)
                    &&& (e == LiquidityError::TickOutOfPage ==> !(arena_holds(
                        old(pages)@,
                        old(pool).tick_spacing,
                        old(position).tick_lower as int,
                    ) && arena_holds(
                        old(pages)@,
                        old(pool).tick_spacing,
                        old(position).tick_upper as int,
                    )))
                },
            }
        }),
{
    let tick_spacing = pool.tick_spacing;
    let tick_lower = position.tick_lower;
    let tick_upper = position.tick_upper;
    // locate both boundary ticks in the arena
    let ghost outcome = spec_apply_outcome(*pool, *position, pages@, liquidity_delta, add);
    let (page_lower, slot_lower) = match locate_tick(pages, tick_spacing, tick_lower) {
        Ok(v) => v,
        Err(e) => {
            proof {
                assert(outcome == Some(LiquidityError::TickOutOfPage));
            }
            return Err(e);
        },
    };
    let (page_upper, slot_upper) = match locate_tick(pages, tick_spacing, tick_upper) {
        Ok(v) => v,
        Err(e) => {
            proof {
                assert(outcome == Some(LiquidityError::TickOutOfPage));
            }
            return Err(e);
        },
    };
    proof {
        if page_lower == page_upper && slot_lower == slot_upper {
            assert(tick_lower == tick_upper);
            assert(false);
        }
    }
    proof {
        assert(pages@[page_lower as int].wf(tick_spacing));
        assert(pages@[page_upper as int].wf(tick_spacing));
    }
    let lower_tick = pages[page_lower].get(slot_lower);
    let upper_tick = pages[page_upper].get(slot_upper);
    proof {
        assert(lower_tick == spec_tick_state(pages@, tick_spacing, tick_lower as int));
        assert(upper_tick == spec_tick_state(pages@, tick_spacing, tick_upper as int));
    }
    // settle pending fees with the position's old liquidity, staged
    let fee_growth_inside_0 = get_fee_growth_inside(
        tick_lower,
        tick_upper,
        pool.tick_current,
        pool.fee_growth_global_0,
        lower_tick.fee_growth_outside_0,
        upper_tick.fee_growth_outside_0,
    );
    let fee_growth_inside_1 = get_fee_growth_inside(
        tick_lower,
        tick_upper,
        pool.tick_current,
        pool.fee_growth_global_1,
        lower_tick.fee_growth_outside_1,
        upper_tick.fee_growth_outside_1,
    );
    let owed_delta_0 = match calculate_tokens_owed(
        fee_growth_inside_0,
        position.fee_growth_inside_0_last,
        position.liquidity,
    ) {
        Ok(v) => v,
        Err(e) => {
            proof {
                assert(outcome == Some(LiquidityError::MathOverflow));
            }
            return Err(e);
        },
    };
    let owed_delta_1 = match calculate_tokens_owed(
        fee_growth_inside_1,
        position.fee_growth_inside_1_last,
        position.liquidity,
    ) {
        Ok(v) => v,
        Err(e) => {
            proof {
                assert(outcome == Some(LiquidityError::MathOverflow));
            }
            return Err(e);
        },
    };
    let new_owed_0 = match position.tokens_owed_0.checked_add(owed_delta_0) {
        Some(v) => v,
        None => {
            proof {
                assert(outcome == Some(LiquidityError::MathOverflow));
            }
            return Err(LiquidityError::MathOverflow);
        },
    };
    let new_owed_1 = match position.tokens_owed_1.checked_add(owed_delta_1) {
        Some(v) => v,
        None => {
            proof {
                assert(outcome == Some(LiquidityError::MathOverflow));
            }
            return Err(LiquidityError::MathOverflow);
        },
    };
    // stage the position's and the pool's liquidity
    let new_position_liquidity: u128;
    if add {
        new_position_liquidity = match position.liquidity.checked_add(liquidity_delta) {
            Some(v) => v,
            None => {
                proof {
                    assert(outcome == Some(LiquidityError::MathOverflow));
                }
                return Err(LiquidityError::MathOverflow);
            },
        };
    } else {
        new_position_liquidity = position.liquidity - liquidity_delta;
    }
    let in_range = tick_lower <= pool.tick_current && pool.tick_current < tick_upper;
    let new_pool_liquidity: u128;
    if in_range {
        if add {
            new_pool_liquidity = match pool.liquidity.checked_add(liquidity_delta) {
                Some(v) => v,
                None => {
                    proof {
                        assert(outcome == Some(LiquidityError::MathOverflow));
                    }
                    return Err(LiquidityError::MathOverflow);
                },
            };
        } else {
            if pool.liquidity < liquidity_delta {
                proof {
                    assert(outcome == Some(LiquidityError::MathOverflow));
                }
                return Err(LiquidityError::MathOverflow);
            }
            new_pool_liquidity = pool.liquidity - liquidity_delta;
        }
    } else {
        new_pool_liquidity = pool.liquidity;
    }
    // pre-check both tick updates so that neither can fail after a write
    if liquidity_delta > 0x7fff_ffff_ffff_ffff_ffff_ffff_ffff_ffffu128 {
        proof {
            assert(outcome == Some(LiquidityError::MathOverflow));
        }
        return Err(LiquidityError::MathOverflow);
    }
    let signed_delta = liquidity_delta as i128;
    if add {
        if lower_tick.liquidity_gross.checked_add(liquidity_delta).is_none() {
            proof {
                assert(outcome == Some(LiquidityError::MathOverflow));
            }
            return Err(LiquidityError::MathOverflow);
        }
        if lower_tick.liquidity_net.checked_add(signed_delta).is_none() {
            proof {
                assert(outcome == Some(LiquidityError::MathOverflow));
            }
            return Err(LiquidityError::MathOverflow);
        }
        if upper_tick.liquidity_gross.checked_add(liquidity_delta).is_none() {
            proof {
                assert(outcome == Some(LiquidityError::MathOverflow));
            }
            return Err(LiquidityError::MathOverflow);
        }
        if upper_tick.liquidity_net.checked_sub(signed_delta).is_none() {
            proof {
                assert(outcome == Some(LiquidityError::MathOverflow));
            }
            return Err(LiquidityError::MathOverflow);
        }
    } else {
        if liquidity_delta > lower_tick.liquidity_gross
            || liquidity_delta > upper_tick.liquidity_gross {
            proof {
                assert(outcome == Some(LiquidityError::LiquidityUnderflow));
            }
            return Err(LiquidityError::LiquidityUnderflow);
        }
        if lower_tick.liquidity_net.checked_sub(signed_delta).is_none() {
            proof {
                assert(outcome == Some(LiquidityError::MathOverflow));
            }
            return Err(LiquidityError::MathOverflow);
        }
        if upper_tick.liquidity_net.checked_add(signed_delta).is_none() {
            proof {
                assert(outcome == Some(LiquidityError::MathOverflow));
            }
            return Err(LiquidityError::MathOverflow);
        }
    }
    proof {
        assert(outcome is None);
    }
    // commit: both boundary ticks, then the position, then the pool
    let ghost pages0 = pages@;
    let r_lower = update_on_liquidity_change(
        &mut pages[page_lower],
        slot_lower,
        liquidity_delta,
        add,
        false,
    );
    proof {
        match r_lower {
            Ok(()) => {},
            Err(_) => {
                assert(false);
            },
        }
    }
    let ghost pages1 = pages@;
    proof {
        crate::tick::lemma_sum_net_update(
            pages0[page_lower as int].ticks@,
            slot_lower as int,
            pages1[page_lower as int].ticks[slot_lower as int],
        );
        assert(pages1[page_lower as int].ticks@ =~= pages0[page_lower as int].ticks@.update(
            slot_lower as int,
            pages1[page_lower as int].ticks[slot_lower as int],
        ));
        assert(pages1 =~= pages0.update(page_lower as int, pages1[page_lower as int]));
        lemma_total_net_update(pages0, page_lower as int, pages1[page_lower as int]);
    }
    let r_upper = update_on_liquidity_change(
        &mut pages[page_upper],
        slot_upper,
        liquidity_delta,
        add,
        true,
    );
    proof {
        match r_upper {
            Ok(()) => {},
            Err(_) => {
                assert(false);
            },
        }
    }
    let ghost pages2 = pages@;
    proof {
        crate::tick::lemma_sum_net_update(
            pages1[page_upper as int].ticks@,
            slot_upper as int,
            pages2[page_upper as int].ticks[slot_upper as int],
        );
        assert(pages2[page_upper as int].ticks@ =~= pages1[page_upper as int].ticks@.update(
            slot_upper as int,
            pages2[page_upper as int].ticks[slot_upper as int],
        ));
        assert(pages2 =~= pages1.update(page_upper as int, pages2[page_upper as int]));
        lemma_total_net_update(pages1, page_upper as int, pages2[page_upper as int]);
    }
    position.tokens_owed_0 = new_owed_0;
    position.tokens_owed_1 = new_owed_1;
    position.fee_growth_inside_0_last = fee_growth_inside_0;
    position.fee_growth_inside_1_last = fee_growth_inside_1;
    position.liquidity = new_position_liquidity;
    pool.liquidity = new_pool_liquidity;
    Ok((amount_0, amount_1))
}


/// Which error an increase stops with — region-math widths first, the
/// zero-liquidity check, the derived amounts, then the shared transaction
/// checks — or `None` when the increase goes through.
pub open spec fn spec_increase_outcome(
    pool: LpPoolStateShape,
    position: Position,
    pages: Seq<TickArrayState>,
    token_0_amount: u64,
    token_1_amount: u64,
) -> Option<LiquidityError> {
    let sl = spec_sqrt_price_at_tick(position.tick_lower as int) as u128;
    let su = spec_sqrt_price_at_tick(position.tick_upper as int) as u128;
    let sc = pool.sqrt_price_x64;
    if sc <= sl {
        let l = spec_liquidity_from_amount_0(sl, su, token_0_amount);
        if spec_price_product(sl, su) >= 0x1_0000_0000_0000_0000_0000_0000_0000_0000 || l
            >= 0x1_0000_0000_0000_0000_0000_0000_0000_0000 {
            Some(LiquidityError::MathOverflow)
        } else if l == 0 {
            Some(LiquidityError::ZeroLiquidity)
        } else if spec_amount_0_from_liquidity(sl, su, l as u128) > u64::MAX {
            Some(LiquidityError::MathOverflow)
        } else {
            spec_apply_outcome(pool, position, pages, l as u128, true)
        }
    } else if sc >= su {
        let l = spec_liquidity_from_amount_1(sl, su, token_1_amount);
        if l == 0 {
            Some(LiquidityError::ZeroLiquidity)
        } else if spec_amount_1_from_liquidity(sl, su, l as u128) > u64::MAX {
            Some(LiquidityError::MathOverflow)
        } else {
            spec_apply_outcome(pool, position, pages, l as u128, true)
        }
    } else {
        let l0 = spec_liquidity_from_amount_0(sc, su, token_0_amount);
        if spec_price_product(sc, su) >= 0x1_0000_0000_0000_0000_0000_0000_0000_0000 || l0
            >= 0x1_0000_0000_0000_0000_0000_0000_0000_0000 {
            Some(LiquidityError::MathOverflow)
        } else {
            let l1 = spec_liquidity_from_amount_1(sl, sc, token_1_amount);
            let l = if l0 < l1 {
                l0
            } else {
                l1
            };
            if l == 0 {
                Some(LiquidityError::ZeroLiquidity)
            } else if spec_amount_0_from_liquidity(sc, su, l as u128) > u64::MAX {
                Some(LiquidityError::MathOverflow)
            } else if spec_amount_1_from_liquidity(sl, sc, l as u128) > u64::MAX {
                Some(LiquidityError::MathOverflow)
            } else {
                spec_apply_outcome(pool, position, pages, l as u128, true)
            }
        }
    }
}

/// Which error a decrease stops with — the zero and sufficiency checks,
/// the owed amounts, then the shared transaction checks — or `None` when
/// the decrease goes through.
pub open spec fn spec_decrease_outcome(
    pool: LpPoolStateShape,
    position: Position,
    pages: Seq<TickArrayState>,
    liquidity_delta: u128,
) -> Option<LiquidityError> {
    let sl = spec_sqrt_price_at_tick(position.tick_lower as int) as u128;
    let su = spec_sqrt_price_at_tick(position.tick_upper as int) as u128;
    let sc = pool.sqrt_price_x64;
    if liquidity_delta == 0 {
        Some(LiquidityError::ZeroLiquidity)
    } else if liquidity_delta > position.liquidity {
        Some(LiquidityError::InsufficientLiquidity)
    } else if sc <= sl {
        if spec_amount_0_from_liquidity(sl, su, liquidity_delta) > u64::MAX {
            Some(LiquidityError::MathOverflow)
        } else {
            spec_apply_outcome(pool, position, pages, liquidity_delta, false)
        }
    } else if sc >= su {
        if spec_amount_1_from_liquidity(sl, su, liquidity_delta) > u64::MAX {
            Some(LiquidityError::MathOverflow)
        } else {
            spec_apply_outcome(pool, position, pages, liquidity_delta, false)
        }
    } else {
        if spec_amount_0_from_liquidity(sc, su, liquidity_delta) > u64::MAX {
            Some(LiquidityError::MathOverflow)
        } else if spec_amount_1_from_liquidity(sl, sc, liquidity_delta) > u64::MAX {
            Some(LiquidityError::MathOverflow)
        } else {
            spec_apply_outcome(pool, position, pages, liquidity_delta, false)
        }
    }
}

/// Adds liquidity to a position: settles pending fees with the old
/// liquidity, derives the liquidity the token budgets buy from the price
/// region, updates both boundary ticks symmetrically, the position, and —
/// when the range contains the current tick — the pool's active liquidity.
/// Returns the token amounts the caller must transfer into the vaults.
/// On any error nothing is changed.
#[verifier::rlimit(100)]
#[verifier::spinoff_prover]
pub fn increase_liquidity(
    pool: &mut LpPoolStateShape,
    position: &mut Position,
    pages: &mut Vec<TickArrayState>,
    token_0_amount: u64,
    token_1_amount: u64,
) -> (r: Result<(u64, u64), LiquidityError>)
    requires
        liquidity_op_wf(*old(pool), *old(position), old(pages)@),
    ensures
        ({
            let sl = spec_sqrt_price_at_tick(old(position).tick_lower as int) as u128;
            let su = spec_sqrt_price_at_tick(old(position).tick_upper as int) as u128;
            let l = spec_derived_liquidity(old(pool).sqrt_price_x64, sl, su, token_0_amount,
                token_1_amount);
            let in_range = old(position).tick_lower <= old(pool).tick_current
                < old(position).tick_upper;
            match r {
                Ok(amounts) => {
                    &&& spec_increase_outcome(*old(pool), *old(position), old(pages)@,
                        token_0_amount, token_1_amount) is None
                    &&& 1 <= l <= u128::MAX
                    &&& amounts.0 == spec_region_amounts(old(pool).sqrt_price_x64, sl, su,
                        l as u128).0
                    &&& amounts.1 == spec_region_amounts(old(pool).sqrt_price_x64, sl, su,
                        l as u128).1
                    &&& final(position).liquidity == old(position).liquidity + l
                    &&& final(position).tick_lower == old(position).tick_lower
                    &&& final(position).tick_upper == old(position).tick_upper
                    &&& final(position).pool_id == old(position).pool_id
                    &&& final(position).owner == old(position).owner
                    &&& final(position).tokens_owed_0 == old(position).tokens_owed_0
                        + spec_tokens_owed(
                        final(position).fee_growth_inside_0_last,
                        old(position).fee_growth_inside_0_last,
                        old(position).liquidity,
                    )
                    &&& final(position).tokens_owed_1 == old(position).tokens_owed_1
                        + spec_tokens_owed(
                        final(position).fee_growth_inside_1_last,
                        old(position).fee_growth_inside_1_last,
                        old(position).liquidity,
                    )
                    &&& final(position).fee_growth_inside_0_last == spec_fee_growth_inside(
                        old(position).tick_lower as int,
                        old(position).tick_upper as int,
                        old(pool).tick_current as int,
                        old(pool).fee_growth_global_0,
                        spec_tick_state(old(pages)@, old(pool).tick_spacing,
                            old(position).tick_lower as int).fee_growth_outside_0,
                        spec_tick_state(old(pages)@, old(pool).tick_spacing,
                            old(position).tick_upper as int).fee_growth_outside_0,
                    )
                    &&& final(position).fee_growth_inside_1_last == spec_fee_growth_inside(
                        old(position).tick_lower as int,
                        old(position).tick_upper as int,
                        old(pool).tick_current as int,
                        old(pool).fee_growth_global_1,
                        spec_tick_state(old(pages)@, old(pool).tick_spacing,
                            old(position).tick_lower as int).fee_growth_outside_1,
                        spec_tick_state(old(pages)@, old(pool).tick_spacing,
                            old(position).tick_upper as int).fee_growth_outside_1,
                    )
                    &&& ({
                        let spacing = old(pool).tick_spacing;
                        let lower = old(position).tick_lower as int;
                        let upper = old(position).tick_upper as int;
                        let pl = spec_first_page_from(old(pages)@, spacing, lower, 0);
                        let sl = spec_page_slot(old(pages)@[pl], spacing, lower);
                        let pu = spec_first_page_from(old(pages)@, spacing, upper, 0);
                        let su = spec_page_slot(old(pages)@[pu], spacing, upper);
                        let new_lower = spec_tick_after_change(
                            spec_tick_state(old(pages)@, spacing, lower),
                            l as u128,
                            true,
                            false,
                        );
                        let new_upper = spec_tick_after_change(
                            spec_tick_state(old(pages)@, spacing, upper),
                            l as u128,
                            true,
                            true,
                        );
                        &&& (forall|i: int|
                            0 <= i < final(pages).len() && i != pl && i != pu
                                ==> (#[trigger] final(pages)[i]).ticks@ == old(pages)[i].ticks@)
                        &&& (pl != pu ==> final(pages)[pl].ticks@ == old(pages)[pl].ticks@.update(
                            sl,
                            new_lower,
                        ) && final(pages)[pu].ticks@ == old(pages)[pu].ticks@.update(
                            su,
                            new_upper,
                        ))
                        &&& (pl == pu ==> final(pages)[pl].ticks@ == old(pages)[pl].ticks@.update(
                            sl,
                            new_lower,
                        ).update(su, new_upper))
                    })
                    &&& (in_range ==> final(pool).liquidity == old(pool).liquidity + l)
                    &&& (!in_range ==> final(pool).liquidity == old(pool).liquidity)
                    &&& *final(pool) == (LpPoolStateShape {
                        liquidity: final(pool).liquidity,
                        ..*old(pool)
                    })
                    &&& final(pages).len() == old(pages).len()
                    &&& forall|i: int| 0 <= i < final(pages).len()
                        ==> (#[trigger] final(pages)[i]).wf(old(pool).tick_spacing)
                        && final(pages)[i].start_tick_index == old(pages)[i].start_tick_index
                        && final(pages)[i].pool_id == old(pages)[i].pool_id
                    &&& total_net(final(pages)@) == total_net(old(pages)@)
                },
                Err(e) => {
                    &&& *final(pool) == *old(pool)
                    &&& *final(position) == *old(position)
                    &&& *final(pages) == *old(pages)
                    &&& spec_increase_outcome(*old(pool), *old(position), old(pages)@,
                        token_0_amount, token_1_amount) == Some(e)
                    &&& (e == LiquidityError::ZeroLiquidity || e == LiquidityError::TickOutOfPage
                        || e == LiquidityError::MathOverflow)
                    &&& (e == LiquidityError::ZeroLiquidity ==> l == 0)
                    &&& (e == LiquidityError::TickOutOfPage ==> !(arena_holds(
                        old(pages)@,
                        old(pool).tick_spacing,
                        old(position).tick_lower as int,
                    ) && arena_holds(
                        old(pages)@,
                        old(pool).tick_spacing,
                        old(position).tick_upper as int,
                    )))
                },
            }
        }),
{
    let tick_spacing = pool.tick_spacing;
    let tick_lower = position.tick_lower;
    let tick_upper = position.tick_upper;
    proof {
        lemma_sqrt_price_in_range(tick_lower as int);
        lemma_sqrt_price_in_range(tick_upper as int);
        lemma_sqrt_price_monotonic(tick_lower as int, tick_upper as int);
    }
    let sqrt_price_lower = sqrt_price_at_tick_internal(tick_lower);
    let sqrt_price_upper = sqrt_price_at_tick_internal(tick_upper);
    let sqrt_price_current = pool.sqrt_price_x64;
    let ghost outcome_inc = spec_increase_outcome(*pool, *position, pages@, token_0_amount,
        token_1_amount);
    // derive the liquidity bought and the amounts owed, by price region
    let liquidity: u128;
    let amount_0: u64;
    let amount_1: u64;
    if sqrt_price_current <= sqrt_price_lower {
        liquidity = match get_liquidity_from_amount_0(
            sqrt_price_lower,
            sqrt_price_upper,
            token_0_amount,
        ) {
            Ok(v) => v,
            Err(e) => {
                proof {
                    assert(outcome_inc == Some(e));
                }
                return Err(e);
            },
        };
        if liquidity == 0 {
            proof {
                assert(outcome_inc == Some(LiquidityError::ZeroLiquidity));
            }
            return Err(LiquidityError::ZeroLiquidity);
        }
        amount_0 = match get_amounts_0_from_liquidity(
            sqrt_price_lower,
            sqrt_price_upper,
            liquidity,
        ) {
            Ok(v) => v,
            Err(e) => {
                proof {
                    assert(outcome_inc == Some(e));
                }
                return Err(e);
            },
        };
        amount_1 = 0;
    } else if sqrt_price_current >= sqrt_price_upper {
        liquidity = match get_liquidity_from_amount_1(
            sqrt_price_lower,
            sqrt_price_upper,
            token_1_amount,
        ) {
            Ok(v) => v,
            Err(e) => {
                proof {
                    assert(outcome_inc == Some(e));
                }
                return Err(e);
            },
        };
        if liquidity == 0 {
            proof {
                assert(outcome_inc == Some(LiquidityError::ZeroLiquidity));
            }
            return Err(LiquidityError::ZeroLiquidity);
        }
        amount_0 = 0;
        amount_1 = match get_amounts_1_from_liquidity(
            sqrt_price_lower,
            sqrt_price_upper,
            liquidity,
        ) {
            Ok(v) => v,
            Err(e) => {
                proof {
                    assert(outcome_inc == Some(e));
                }
                return Err(e);
            },
        };
    } else {
        let liquidity_0 = match get_liquidity_from_amount_0(
            sqrt_price_current,
            sqrt_price_upper,
            token_0_amount,
        ) {
            Ok(v) => v,
            Err(e) => {
                proof {
                    assert(outcome_inc == Some(e));
                }
                return Err(e);
            },
        };
        let liquidity_1 = match get_liquidity_from_amount_1(
            sqrt_price_lower,
            sqrt_price_current,
            token_1_amount,
        ) {
            Ok(v) => v,
            Err(e) => {
                proof {
                    assert(outcome_inc == Some(e));
                }
                return Err(e);
            },
        };
        liquidity = if liquidity_0 < liquidity_1 {
            liquidity_0
        } else {
            liquidity_1
        };
        if liquidity == 0 {
            proof {
                assert(outcome_inc == Some(LiquidityError::ZeroLiquidity));
            }
            return Err(LiquidityError::ZeroLiquidity);
        }
        amount_0 = match get_amounts_0_from_liquidity(
            sqrt_price_current,
            sqrt_price_upper,
            liquidity,
        ) {
            Ok(v) => v,
            Err(e) => {
                proof {
                    assert(outcome_inc == Some(e));
                }
                return Err(e);
            },
        };
        amount_1 = match get_amounts_1_from_liquidity(
            sqrt_price_lower,
            sqrt_price_current,
            liquidity,
        ) {
            Ok(v) => v,
            Err(e) => {
                proof {
                    assert(outcome_inc == Some(e));
                }
                return Err(e);
            },
        };
    }
    proof {
        let sl = spec_sqrt_price_at_tick(position.tick_lower as int) as u128;
        let su = spec_sqrt_price_at_tick(position.tick_upper as int) as u128;
        assert(sqrt_price_lower == sl);
        assert(sqrt_price_upper == su);
        assert(liquidity == spec_derived_liquidity(pool.sqrt_price_x64, sl, su, token_0_amount,
            token_1_amount));
        assert(amount_0 == spec_region_amounts(pool.sqrt_price_x64, sl, su, liquidity).0);
        assert(amount_1 == spec_region_amounts(pool.sqrt_price_x64, sl, su, liquidity).1);
    }
    proof {
        assert(outcome_inc == spec_apply_outcome(*pool, *position, pages@, liquidity, true));
    }
    apply_liquidity_delta(pool, position, pages, liquidity, true, amount_0, amount_1)
}


/// Removes `liquidity_delta` from a position: settles pending fees with
/// the old liquidity, computes the token amounts owed back by price
/// region, updates both boundary ticks symmetrically, the position, and —
/// when the range contains the current tick — the pool's active liquidity.
/// Returns the token amounts the caller must transfer out of the vaults.
/// On any error nothing is changed.
#[verifier::rlimit(100)]
#[verifier::spinoff_prover]
pub fn decrease_liquidity(
    pool: &mut LpPoolStateShape,
    position: &mut Position,
    pages: &mut Vec<TickArrayState>,
    liquidity_delta: u128,
) -> (r: Result<(u64, u64), LiquidityError>)
    requires
        liquidity_op_wf(*old(pool), *old(position), old(pages)@),
    ensures
        liquidity_delta == 0 ==> r == Err::<(u64, u64), LiquidityError>(
            LiquidityError::ZeroLiquidity,
        ),
        liquidity_delta > 0 && liquidity_delta > old(position).liquidity ==> r == Err::<
            (u64, u64),
            LiquidityError,
        >(LiquidityError::InsufficientLiquidity),
        ({
            let sl = spec_sqrt_price_at_tick(old(position).tick_lower as int) as u128;
            let su = spec_sqrt_price_at_tick(old(position).tick_upper as int) as u128;
            let in_range = old(position).tick_lower <= old(pool).tick_current
                < old(position).tick_upper;
            match r {
                Ok(amounts) => {
                    &&& spec_decrease_outcome(*old(pool), *old(position), old(pages)@,
                        liquidity_delta) is None
                    &&& 1 <= liquidity_delta <= old(position).liquidity
                    &&& amounts.0 == spec_region_amounts(old(pool).sqrt_price_x64, sl, su,
                        liquidity_delta).0
                    &&& amounts.1 == spec_region_amounts(old(pool).sqrt_price_x64, sl, su,
                        liquidity_delta).1
                    &&& final(position).liquidity == old(position).liquidity - liquidity_delta
                    &&& final(position).tick_lower == old(position).tick_lower
                    &&& final(position).tick_upper == old(position).tick_upper
                    &&& final(position).pool_id == old(position).pool_id
                    &&& final(position).owner == old(position).owner
                    &&& final(position).tokens_owed_0 == old(position).tokens_owed_0
                        + spec_tokens_owed(
                        final(position).fee_growth_inside_0_last,
                        old(position).fee_growth_inside_0_last,
                        old(position).liquidity,
                    )
                    &&& final(position).tokens_owed_1 == old(position).tokens_owed_1
                        + spec_tokens_owed(
                        final(position).fee_growth_inside_1_last,
                        old(position).fee_growth_inside_1_last,
                        old(position).liquidity,
                    )
                    &&& final(position).fee_growth_inside_0_last == spec_fee_growth_inside(
                        old(position).tick_lower as int,
                        old(position).tick_upper as int,
                        old(pool).tick_current as int,
                        old(pool).fee_growth_global_0,
                        spec_tick_state(old(pages)@, old(pool).tick_spacing,
                            old(position).tick_lower as int).fee_growth_outside_0,
                        spec_tick_state(old(pages)@, old(pool).tick_spacing,
                            old(position).tick_upper as int).fee_growth_outside_0,
                    )
                    &&& final(position).fee_growth_inside_1_last == spec_fee_growth_inside(
                        old(position).tick_lower as int,
                        old(position).tick_upper as int,
                        old(pool).tick_current as int,
                        old(pool).fee_growth_global_1,
                        spec_tick_state(old(pages)@, old(pool).tick_spacing,
                            old(position).tick_lower as int).fee_growth_outside_1,
                        spec_tick_state(old(pages)@, old(pool).tick_spacing,
                            old(position).tick_upper as int).fee_growth_outside_1,
                    )
                    &&& ({
                        let spacing = old(pool).tick_spacing;
                        let lower = old(position).tick_lower as int;
                        let upper = old(position).tick_upper as int;
                        let pl = spec_first_page_from(old(pages)@, spacing, lower, 0);
                        let sl = spec_page_slot(old(pages)@[pl], spacing, lower);
                        let pu = spec_first_page_from(old(pages)@, spacing, upper, 0);
                        let su = spec_page_slot(old(pages)@[pu], spacing, upper);
                        let new_lower = spec_tick_after_change(
                            spec_tick_state(old(pages)@, spacing, lower),
                            liquidity_delta,
                            false,
                            false,
                        );
                        let new_upper = spec_tick_after_change(
                            spec_tick_state(old(pages)@, spacing, upper),
                            liquidity_delta,
                            false,
                            true,
                        );
                        &&& (forall|i: int|
                            0 <= i < final(pages).len() && i != pl && i != pu
                                ==> (#[trigger] final(pages)[i]).ticks@ == old(pages)[i].ticks@)
                        &&& (pl != pu ==> final(pages)[pl].ticks@ == old(pages)[pl].ticks@.update(
                            sl,
                            new_lower,
                        ) && final(pages)[pu].ticks@ == old(pages)[pu].ticks@.update(
                            su,
                            new_upper,
                        ))
                        &&& (pl == pu ==> final(pages)[pl].ticks@ == old(pages)[pl].ticks@.update(
                            sl,
                            new_lower,
                        ).update(su, new_upper))
                    })
                    &&& (in_range ==> final(pool).liquidity == old(pool).liquidity
                        - liquidity_delta)
                    &&& (!in_range ==> final(pool).liquidity == old(pool).liquidity)
                    &&& *final(pool) == (LpPoolStateShape {
                        liquidity: final(pool).liquidity,
                        ..*old(pool)
                    })
                    &&& final(pages).len() == old(pages).len()
                    &&& forall|i: int| 0 <= i < final(pages).len()
                        ==> (#[trigger] final(pages)[i]).wf(old(pool).tick_spacing)
                        && final(pages)[i].start_tick_index == old(pages)[i].start_tick_index
                        && final(pages)[i].pool_id == old(pages)[i].pool_id
                    &&& total_net(final(pages)@) == total_net(old(pages)@)
                },
                Err(e) => {
                    &&& *final(pool) == *old(pool)
                    &&& *final(position) == *old(position)
                    &&& *final(pages) == *old(pages)
                    &&& spec_decrease_outcome(*old(pool), *old(position), old(pages)@,
                        liquidity_delta) == Some(e)
                    &&& (e == LiquidityError::ZeroLiquidity
                        || e == LiquidityError::InsufficientLiquidity
                        || e == LiquidityError::TickOutOfPage
                        || e == LiquidityError::LiquidityUnderflow
                        || e == LiquidityError::MathOverflow)
                    &&& (e == LiquidityError::TickOutOfPage ==> !(arena_holds(
                        old(pages)@,
                        old(pool).tick_spacing,
                        old(position).tick_lower as int,
                    ) && arena_holds(
                        old(pages)@,
                        old(pool).tick_spacing,
                        old(position).tick_upper as int,
                    )))
                },
            }
        }),
{
    let ghost outcome_dec = spec_decrease_outcome(*pool, *position, pages@, liquidity_delta);
    if liquidity_delta == 0 {
        return Err(LiquidityError::ZeroLiquidity);
    }
    if liquidity_delta > position.liquidity {
        return Err(LiquidityError::InsufficientLiquidity);
    }
    let tick_lower = position.tick_lower;
    let tick_upper = position.tick_upper;
    proof {
        lemma_sqrt_price_in_range(tick_lower as int);
        lemma_sqrt_price_in_range(tick_upper as int);
        lemma_sqrt_price_monotonic(tick_lower as int, tick_upper as int);
    }
    let sqrt_price_lower = sqrt_price_at_tick_internal(tick_lower);
    let sqrt_price_upper = sqrt_price_at_tick_internal(tick_upper);
    let sqrt_price_current = pool.sqrt_price_x64;
    // token amounts owed back, by price region
    let amount_0: u64;
    let amount_1: u64;
    if sqrt_price_current <= sqrt_price_lower {
        amount_0 = match get_amounts_0_from_liquidity(
            sqrt_price_lower,
            sqrt_price_upper,
            liquidity_delta,
        ) {
            Ok(v) => v,
            Err(e) => {
                proof {
                    assert(outcome_dec == Some(e));
                }
                return Err(e);
            },
        };
        amount_1 = 0;
    } else if sqrt_price_current >= sqrt_price_upper {
        amount_0 = 0;
        amount_1 = match get_amounts_1_from_liquidity(
            sqrt_price_lower,
            sqrt_price_upper,
            liquidity_delta,
        ) {
            Ok(v) => v,
            Err(e) => {
                proof {
                    assert(outcome_dec == Some(e));
                }
                return Err(e);
            },
        };
    } else {
        amount_0 = match get_amounts_0_from_liquidity(
            sqrt_price_current,
            sqrt_price_upper,
            liquidity_delta,
        ) {
            Ok(v) => v,
            Err(e) => {
                proof {
                    assert(outcome_dec == Some(e));
                }
                return Err(e);
            },
        };
        amount_1 = match get_amounts_1_from_liquidity(
            sqrt_price_lower,
            sqrt_price_current,
            liquidity_delta,
        ) {
            Ok(v) => v,
            Err(e) => {
                proof {
                    assert(outcome_dec == Some(e));
                }
                return Err(e);
            },
        };
    }
    proof {
        let sl = spec_sqrt_price_at_tick(position.tick_lower as int) as u128;
        let su = spec_sqrt_price_at_tick(position.tick_upper as int) as u128;
        assert(amount_0 == spec_region_amounts(pool.sqrt_price_x64, sl, su, liquidity_delta).0);
        assert(amount_1 == spec_region_amounts(pool.sqrt_price_x64, sl, su, liquidity_delta).1);
    }
    proof {
        assert(outcome_dec == spec_apply_outcome(*pool, *position, pages@, liquidity_delta,
            false));
    }
    apply_liquidity_delta(pool, position, pages, liquidity_delta, false, amount_0, amount_1)
}


/// Law: an arena whose pages each sum to zero has a zero net sum overall;
/// since every liquidity change touches both boundary ticks with opposite
/// signs and a swap never changes a tick's net liquidity, the operations'
/// contracts keep the arena's net sum at zero from then on.
pub proof fn lemma_liquidity_net_conservation(pages: Seq<TickArrayState>)
    requires
        forall|i: int| 0 <= i < pages.len() ==> sum_net(#[trigger] pages[i].ticks@) == 0,
    ensures
        total_net(pages) == 0,
    decreases pages.len(),
{
    if pages.len() > 0 {
        lemma_liquidity_net_conservation(pages.drop_last());
    }
}

} // verus!
