//! Tick-index price math: the Q64.64 square-root price at a tick and its
//! inverse. The price at tick `t` is `1.0001^(t/2) * 2^64`, computed for
//! `|t|` by multiplying precomputed per-bit factors and inverting when the
//! tick is positive.

use vstd::prelude::*;
use vstd::arithmetic::power2::{pow2, lemma2_to64, lemma2_to64_rest, lemma_pow2_adds};
use crate::errors::TickMathError;

verus! {

/// Smallest representable tick.
pub const MIN_TICK: i32 = -443636;

/// Largest representable tick.
pub const MAX_TICK: i32 = 443636;

/// Square-root price at `MIN_TICK`.
pub const MIN_SQRT_PRICE_X64: u128 = 4295048016;

/// Square-root price at `MAX_TICK`.
pub const MAX_SQRT_PRICE_X64: u128 = 79226673521066979257578248091;

/// One in Q64.64 fixed point: 2^64.
pub const Q64: u128 = 0x1_0000_0000_0000_0000;

/// `sqrt(1.0001^(-2^i))` in Q64.64: the factor applied for bit `i` of the
/// tick magnitude.
pub open spec fn magic_factor(i: nat) -> int {
    if i == 0 {
        18445821805675392311
    } else if i == 1 {
        18444899583751176498
    } else if i == 2 {
        18443055278223354162
    } else if i == 3 {
        18439367220385604838
    } else if i == 4 {
        18431993317065449817
    } else if i == 5 {
        18417254355718160513
    } else if i == 6 {
        18387811781193591352
    } else if i == 7 {
        18329067761203520168
    } else if i == 8 {
        18212142134806087854
    } else if i == 9 {
        17980523815641551639
    } else if i == 10 {
        17526086738831147013
    } else if i == 11 {
        16651378430235024244
    } else if i == 12 {
        15030750278693429944
    } else if i == 13 {
        12247334978882834399
    } else if i == 14 {
        8131365268884726200
    } else if i == 15 {
        3584323654723342297
    } else if i == 16 {
        696457651847595233
    } else if i == 17 {
        26294789957452057
    } else if i == 18 {
        37481735321082
    } else {
        0
    }
}

/// One Q64.64 multiply step: `floor(r * c / 2^64)`.
pub open spec fn mul_shift(r: int, c: int) -> int {
    (r * c) / 0x1_0000_0000_0000_0000
}

/// Whether bit `i` of `n` is set.
pub open spec fn tick_bit(n: nat, i: nat) -> bool {
    (n / pow2(i)) % 2 == 1
}

/// Folds the magic factors selected by bits `i..19` of `n` over `r`.
pub open spec fn ratio_rec(n: nat, i: nat, r: int) -> int
    decreases 19 - i,
{
    if i >= 19 {
        r
    } else {
        ratio_rec(n, i + 1, if tick_bit(n, i) { mul_shift(r, magic_factor(i)) } else { r })
    }
}

/// The Q64.64 ratio `1.0001^(-n/2)` as the per-bit product computes it.
pub open spec fn tick_ratio(n: nat) -> int {
    ratio_rec(n, 0, 0x1_0000_0000_0000_0000)
}

/// The Q64.64 square-root price at tick `t`.
pub open spec fn spec_sqrt_price_at_tick(t: int) -> int {
    if t <= 0 {
        tick_ratio((-t) as nat)
    } else {
        0xffff_ffff_ffff_ffff_ffff_ffff_ffff_ffffint / tick_ratio(t as nat)
    }
}

/// The per-bit product with every factor up to bit `i` applied: the smallest
/// value the product can hold after the first `i` steps.
pub open spec fn low_chain(i: nat) -> int
    decreases i,
{
    if i == 0 {
        0x1_0000_0000_0000_0000
    } else {
        mul_shift(low_chain((i - 1) as nat), magic_factor((i - 1) as nat))
    }
}

/// The concrete values of `low_chain`.
pub proof fn lemma_low_chain_values()
    ensures
        low_chain(0) == 18446744073709551616,
        low_chain(1) == 18445821805675392311,
        low_chain(2) == 18443977407934598850,
        low_chain(3) == 18440289165698567478,
        low_chain(4) == 18432914893692463368,
        low_chain(5) == 18418175195415529478,
        low_chain(6) == 18388731148799035466,
        low_chain(7) == 18329984191681391131,
        low_chain(8) == 18213052719148788671,
        low_chain(9) == 17981422819357802651,
        low_chain(10) == 17526963021261575450,
        low_chain(11) == 16652210978343353594,
        low_chain(12) == 15031501797419866121,
        low_chain(13) == 12247947330323375219,
        low_chain(14) == 8131771826984472022,
        low_chain(15) == 3584502866425897898,
        low_chain(16) == 696492473859659073,
        low_chain(17) == 26296104664083085,
        low_chain(18) == 37483609360998,
        low_chain(19) == 76162531,
{
    assert(low_chain(0) == 18446744073709551616);
    assert(low_chain(1) == 18445821805675392311);
    assert(low_chain(2) == 18443977407934598850);
    assert(low_chain(3) == 18440289165698567478);
    assert(low_chain(4) == 18432914893692463368);
    assert(low_chain(5) == 18418175195415529478);
    assert(low_chain(6) == 18388731148799035466);
    assert(low_chain(7) == 18329984191681391131);
    assert(low_chain(8) == 18213052719148788671);
    assert(low_chain(9) == 17981422819357802651);
    assert(low_chain(10) == 17526963021261575450);
    assert(low_chain(11) == 16652210978343353594);
    assert(low_chain(12) == 15031501797419866121);
    assert(low_chain(13) == 12247947330323375219);
    assert(low_chain(14) == 8131771826984472022);
    assert(low_chain(15) == 3584502866425897898);
    assert(low_chain(16) == 696492473859659073);
    assert(low_chain(17) == 26296104664083085);
    assert(low_chain(18) == 37483609360998);
    assert(low_chain(19) == 76162531);
}

/// Each magic factor lies strictly between 0 and 2^64.
pub proof fn lemma_magic_factor_bounds()
    ensures
        forall|i: nat| i < 19 ==> 1 <= #[trigger] magic_factor(i) < 0x1_0000_0000_0000_0000,
{
    assert forall|i: nat| i < 19 implies 1 <= #[trigger] magic_factor(i)
        < 0x1_0000_0000_0000_0000 by {
        if i >= 19 {
        }
    }
}

/// A Q64.64 multiply step keeps order and stays within `[0, c]` for inputs
/// in `[0, 2^64]`.
pub proof fn lemma_mul_shift_bounds(lo: int, r: int, c: int)
    requires
        0 <= lo <= r <= 0x1_0000_0000_0000_0000,
        1 <= c < 0x1_0000_0000_0000_0000,
    ensures
        0 <= mul_shift(lo, c),
        mul_shift(lo, c) <= mul_shift(r, c),
        mul_shift(r, c) <= c,
        mul_shift(r, c) <= r,
{
    assert(0 <= (lo * c) / 0x1_0000_0000_0000_0000
        && (lo * c) / 0x1_0000_0000_0000_0000 <= (r * c) / 0x1_0000_0000_0000_0000
        && (r * c) / 0x1_0000_0000_0000_0000 <= c
        && (r * c) / 0x1_0000_0000_0000_0000 <= r) by (nonlinear_arith)
        requires
            0 <= lo <= r <= 0x1_0000_0000_0000_0000,
            1 <= c < 0x1_0000_0000_0000_0000,
    ;
}

/// The magic factor for one bit position, as an executable value.
fn magic_const(i: usize) -> (c: u64)
    requires
        i < 19,
    ensures
        c as int == magic_factor(i as nat),
{
    if i == 0 {
        18445821805675392311
    } else if i == 1 {
        18444899583751176498
    } else if i == 2 {
        18443055278223354162
    } else if i == 3 {
        18439367220385604838
    } else if i == 4 {
        18431993317065449817
    } else if i == 5 {
        18417254355718160513
    } else if i == 6 {
        18387811781193591352
    } else if i == 7 {
        18329067761203520168
    } else if i == 8 {
        18212142134806087854
    } else if i == 9 {
        17980523815641551639
    } else if i == 10 {
        17526086738831147013
    } else if i == 11 {
        16651378430235024244
    } else if i == 12 {
        15030750278693429944
    } else if i == 13 {
        12247334978882834399
    } else if i == 14 {
        8131365268884726200
    } else if i == 15 {
        3584323654723342297
    } else if i == 16 {
        696457651847595233
    } else if i == 17 {
        26294789957452057
    } else if i == 18 {
        37481735321082
    } else {
        0
    }
}

/// The square-root price for a tick already known to be in range.
pub(crate) fn sqrt_price_at_tick_internal(tick: i32) -> (r: u128)
    requires
        MIN_TICK <= tick <= MAX_TICK,
    ensures
        r == spec_sqrt_price_at_tick(tick as int),
{
    let abs_tick: u32 = if tick >= 0 {
        tick as u32
    } else {
        (-tick) as u32
    };
    let ghost n = abs_tick as nat;
    proof {
        lemma_low_chain_values();
        lemma_magic_factor_bounds();
        lemma2_to64();
    }
    let mut ratio: u128 = Q64;
    let mut p: u32 = 1;
    let mut i: usize = 0;
    while i < 19
        invariant
            i <= 19,
            n == abs_tick as nat,
            p == pow2(i as nat),
            low_chain(i as nat) <= ratio <= 0x1_0000_0000_0000_0000,
            ratio_rec(n, i as nat, ratio as int) == tick_ratio(n),
        decreases 19 - i,
    {
        proof {
            lemma_low_chain_values();
            lemma_magic_factor_bounds();
            vstd::arithmetic::power2::lemma_pow2_strictly_increases(i as nat, 19);
            lemma2_to64();
            assert(p >= 1);
        }
        let c = magic_const(i);
        proof {
            assert(low_chain((i + 1) as nat)
                == mul_shift(low_chain(i as nat), magic_factor(i as nat)));
            lemma_mul_shift_bounds(low_chain(i as nat), ratio as int, c as int);
            lemma_mul_shift_bounds(low_chain(i as nat), low_chain(i as nat), c as int);
        }
        if (abs_tick / p) % 2 == 1 {
            proof {
                assert(tick_bit(n, i as nat));
                assert(ratio_rec(n, i as nat, ratio as int)
                    == ratio_rec(n, (i + 1) as nat, mul_shift(ratio as int, c as int)));
            }
            ratio = (ratio * (c as u128)) / Q64;
        } else {
            proof {
                assert(!tick_bit(n, i as nat));
                assert(ratio_rec(n, i as nat, ratio as int)
                    == ratio_rec(n, (i + 1) as nat, ratio as int));
            }
        }
        proof {
            vstd::arithmetic::power2::lemma_pow2_adds(i as nat, 1);
        }
        p = p * 2;
        i = i + 1;
    }
    proof {
        lemma_low_chain_values();
        assert(ratio_rec(n, 19, ratio as int) == ratio as int);
        assert(ratio as int == tick_ratio(n));
        assert(ratio >= 76162531);
    }
    if tick > 0 {
        ratio = 0xffff_ffff_ffff_ffff_ffff_ffff_ffff_ffffu128 / ratio;
    }
    ratio
}

/// The Q64.64 square-root price at a tick: `1.0001^(tick/2) * 2^64`.
/// Fails with `TickOutOfRange` exactly when the tick lies outside
/// `[MIN_TICK, MAX_TICK]`.
pub fn get_sqrt_price_at_tick(tick: i32) -> (r: Result<u128, TickMathError>)
    ensures
        MIN_TICK <= tick <= MAX_TICK
            ==> r == Ok::<u128, TickMathError>(spec_sqrt_price_at_tick(tick as int) as u128),
        !(MIN_TICK <= tick <= MAX_TICK)
            ==> r == Err::<u128, TickMathError>(TickMathError::TickOutOfRange),
{
    if tick < MIN_TICK || tick > MAX_TICK {
        return Err(TickMathError::TickOutOfRange);
    }
    proof {
        lemma_sqrt_price_fits(tick as int);
    }
    Ok(sqrt_price_at_tick_internal(tick))
}

/// The computed square-root price fits in a `u128`.
pub proof fn lemma_sqrt_price_fits(t: int)
    requires
        MIN_TICK <= t <= MAX_TICK,
    ensures
        0 <= spec_sqrt_price_at_tick(t) < 0x1_0000_0000_0000_0000_0000_0000_0000_0000,
{
    lemma_tick_ratio_range((if t <= 0 { -t } else { t }) as nat);
    if t > 0 {
        lemma_div_bound_pos(0xffff_ffff_ffff_ffff_ffff_ffff_ffff_ffff, tick_ratio(t as nat));
    }
}

/// The per-bit product stays within `[1, 2^64]` on the tick range.
pub proof fn lemma_tick_ratio_range(n: nat)
    requires
        n <= 0x80000,
    ensures
        1 <= tick_ratio(n) <= 0x1_0000_0000_0000_0000,
{
    lemma_low_chain_values();
    lemma_magic_factor_bounds();
    lemma_ratio_rec_bounds(n, 0, 0x1_0000_0000_0000_0000);
}

/// Folding any subset of the magic factors keeps the product between the
/// full chain below and the starting value above.
proof fn lemma_ratio_rec_bounds(n: nat, i: nat, r: int)
    requires
        i <= 19,
        low_chain(i) <= r <= 0x1_0000_0000_0000_0000,
    ensures
        low_chain(19) <= ratio_rec(n, i, r) <= 0x1_0000_0000_0000_0000,
    decreases 19 - i,
{
    lemma_magic_factor_bounds();
    lemma_low_chain_values();
    if i < 19 {
        if tick_bit(n, i) {
            lemma_mul_shift_bounds(low_chain(i), r, magic_factor(i));
            lemma_ratio_rec_bounds(n, i + 1, mul_shift(r, magic_factor(i)));
        } else {
            lemma_mul_shift_bounds(low_chain(i), low_chain(i), magic_factor(i));
            lemma_ratio_rec_bounds(n, i + 1, r);
        }
    }
}

/// A quotient of a bounded dividend by a positive divisor is bounded.
proof fn lemma_div_bound_pos(m: int, d: int)
    requires
        m >= 0,
        d >= 1,
    ensures
        0 <= m / d <= m,
{
    assert(0 <= m / d <= m) by (nonlinear_arith)
        requires
            m >= 0,
            d >= 1,
    ;
}


/// The square-root prices at the extreme ticks and at tick zero.
pub proof fn lemma_price_extremes()
    ensures
        spec_sqrt_price_at_tick(-443636) == MIN_SQRT_PRICE_X64,
        spec_sqrt_price_at_tick(443636) == MAX_SQRT_PRICE_X64,
        spec_sqrt_price_at_tick(0) == Q64,
        tick_ratio(443636) == MIN_SQRT_PRICE_X64,
{
    lemma2_to64();
    lemma2_to64_rest();
    lemma_pow2_adds(17, 1);
    lemma_pow2_adds(18, 1);
    assert(ratio_rec(443636, 0, 18446744073709551616) == ratio_rec(443636, 1, 18446744073709551616));
    assert(ratio_rec(443636, 1, 18446744073709551616) == ratio_rec(443636, 2, 18446744073709551616));
    assert(ratio_rec(443636, 2, 18446744073709551616) == ratio_rec(443636, 3, 18443055278223354162));
    assert(ratio_rec(443636, 3, 18443055278223354162) == ratio_rec(443636, 4, 18443055278223354162));
    assert(ratio_rec(443636, 4, 18443055278223354162) == ratio_rec(443636, 5, 18428307471288117479));
    assert(ratio_rec(443636, 5, 18428307471288117479) == ratio_rec(443636, 6, 18398847226801858501));
    assert(ratio_rec(443636, 6, 18398847226801858501) == ratio_rec(443636, 7, 18340067951587015306));
    assert(ratio_rec(443636, 7, 18340067951587015306) == ratio_rec(443636, 8, 18223072152272561885));
    assert(ratio_rec(443636, 8, 18223072152272561885) == ratio_rec(443636, 9, 18223072152272561885));
    assert(ratio_rec(443636, 9, 18223072152272561885) == ratio_rec(443636, 10, 18223072152272561885));
    assert(ratio_rec(443636, 10, 18223072152272561885) == ratio_rec(443636, 11, 17313578044587773368));
    assert(ratio_rec(443636, 11, 17313578044587773368) == ratio_rec(443636, 12, 17313578044587773368));
    assert(ratio_rec(443636, 12, 17313578044587773368) == ratio_rec(443636, 13, 17313578044587773368));
    assert(ratio_rec(443636, 13, 17313578044587773368) == ratio_rec(443636, 14, 17313578044587773368));
    assert(ratio_rec(443636, 14, 17313578044587773368) == ratio_rec(443636, 15, 7631863196526440527));
    assert(ratio_rec(443636, 15, 7631863196526440527) == ratio_rec(443636, 16, 1482921196045045371));
    assert(ratio_rec(443636, 16, 1482921196045045371) == ratio_rec(443636, 17, 1482921196045045371));
    assert(ratio_rec(443636, 17, 1482921196045045371) == ratio_rec(443636, 18, 2113820261052536));
    assert(ratio_rec(443636, 18, 2113820261052536) == ratio_rec(443636, 19, 4295048016));
    assert(ratio_rec(443636, 19, 4295048016) == 4295048016);
    assert(tick_ratio(443636) == 4295048016);
    assert(ratio_rec(0, 0, 0x1_0000_0000_0000_0000) == ratio_rec(0, 1, 0x1_0000_0000_0000_0000));
    assert(ratio_rec(0, 1, 0x1_0000_0000_0000_0000) == ratio_rec(0, 2, 0x1_0000_0000_0000_0000));
    assert(ratio_rec(0, 2, 0x1_0000_0000_0000_0000) == ratio_rec(0, 3, 0x1_0000_0000_0000_0000));
    assert(ratio_rec(0, 3, 0x1_0000_0000_0000_0000) == ratio_rec(0, 4, 0x1_0000_0000_0000_0000));
    assert(ratio_rec(0, 4, 0x1_0000_0000_0000_0000) == ratio_rec(0, 5, 0x1_0000_0000_0000_0000));
    assert(ratio_rec(0, 5, 0x1_0000_0000_0000_0000) == ratio_rec(0, 6, 0x1_0000_0000_0000_0000));
    assert(ratio_rec(0, 6, 0x1_0000_0000_0000_0000) == ratio_rec(0, 7, 0x1_0000_0000_0000_0000));
    assert(ratio_rec(0, 7, 0x1_0000_0000_0000_0000) == ratio_rec(0, 8, 0x1_0000_0000_0000_0000));
    assert(ratio_rec(0, 8, 0x1_0000_0000_0000_0000) == ratio_rec(0, 9, 0x1_0000_0000_0000_0000));
    assert(ratio_rec(0, 9, 0x1_0000_0000_0000_0000) == ratio_rec(0, 10, 0x1_0000_0000_0000_0000));
    assert(ratio_rec(0, 10, 0x1_0000_0000_0000_0000) == ratio_rec(0, 11, 0x1_0000_0000_0000_0000));
    assert(ratio_rec(0, 11, 0x1_0000_0000_0000_0000) == ratio_rec(0, 12, 0x1_0000_0000_0000_0000));
    assert(ratio_rec(0, 12, 0x1_0000_0000_0000_0000) == ratio_rec(0, 13, 0x1_0000_0000_0000_0000));
    assert(ratio_rec(0, 13, 0x1_0000_0000_0000_0000) == ratio_rec(0, 14, 0x1_0000_0000_0000_0000));
    assert(ratio_rec(0, 14, 0x1_0000_0000_0000_0000) == ratio_rec(0, 15, 0x1_0000_0000_0000_0000));
    assert(ratio_rec(0, 15, 0x1_0000_0000_0000_0000) == ratio_rec(0, 16, 0x1_0000_0000_0000_0000));
    assert(ratio_rec(0, 16, 0x1_0000_0000_0000_0000) == ratio_rec(0, 17, 0x1_0000_0000_0000_0000));
    assert(ratio_rec(0, 17, 0x1_0000_0000_0000_0000) == ratio_rec(0, 18, 0x1_0000_0000_0000_0000));
    assert(ratio_rec(0, 18, 0x1_0000_0000_0000_0000) == ratio_rec(0, 19, 0x1_0000_0000_0000_0000));
    assert(tick_ratio(0) == 0x1_0000_0000_0000_0000);
    assert(0xffff_ffff_ffff_ffff_ffff_ffff_ffff_ffffint / 4295048016int
        == 79226673521066979257578248091int);
}

/// The tick whose price bracket holds a Q64.64 square-root price: the result
/// `t` has `sqrt_price_at(t) <= p`, and `p < sqrt_price_at(t + 1)` unless
/// `t` is `MAX_TICK`. Fails with `TickOutOfRange` exactly when the price
/// lies outside `[MIN_SQRT_PRICE_X64, MAX_SQRT_PRICE_X64]`.
pub fn get_tick_at_sqrt_price(sqrt_price_x64: u128) -> (r: Result<i32, TickMathError>)
    ensures
        MIN_SQRT_PRICE_X64 <= sqrt_price_x64 <= MAX_SQRT_PRICE_X64 ==> (r matches Ok(t)
            && MIN_TICK <= t <= MAX_TICK
            && spec_sqrt_price_at_tick(t as int) <= sqrt_price_x64
            && (t < MAX_TICK ==> sqrt_price_x64 < spec_sqrt_price_at_tick(t + 1))),
        !(MIN_SQRT_PRICE_X64 <= sqrt_price_x64 <= MAX_SQRT_PRICE_X64)
            ==> r == Err::<i32, TickMathError>(TickMathError::TickOutOfRange),
{
    if sqrt_price_x64 < MIN_SQRT_PRICE_X64 || sqrt_price_x64 > MAX_SQRT_PRICE_X64 {
        return Err(TickMathError::TickOutOfRange);
    }
    proof {
        lemma_price_extremes();
    }
    let mut lo: i32 = MIN_TICK;
    let mut hi: i32 = MAX_TICK;
    while lo < hi
        invariant
            MIN_TICK <= lo <= hi <= MAX_TICK,
            spec_sqrt_price_at_tick(lo as int) <= sqrt_price_x64,
            hi == MAX_TICK || sqrt_price_x64 < spec_sqrt_price_at_tick(hi + 1),
        decreases hi - lo,
    {
        let mid = lo + (hi - lo + 1) / 2;
        let price_mid = sqrt_price_at_tick_internal(mid);
        if price_mid <= sqrt_price_x64 {
            lo = mid;
        } else {
            hi = mid - 1;
        }
    }
    Ok(lo)
}

} // verus!
