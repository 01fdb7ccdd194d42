//! Monotonicity of the tick-to-price map.
//!
//! The per-bit product applies a floor after every multiplication, so its
//! strict monotonicity is not free: the proof propagates a lower bound on
//! the gap between two products through the remaining steps, and checks
//! concretely, for every bit position, that the gap opened by a carry
//! (a run of trailing one bits rolling over) survives the floors.

use vstd::prelude::*;
use vstd::arithmetic::power2::{pow2, lemma2_to64, lemma2_to64_rest, lemma_pow2_adds, lemma_pow2_pos, lemma_pow2_strictly_increases};
use vstd::arithmetic::div_mod::{lemma_div_denominator, lemma_div_multiples_vanish, lemma_fundamental_div_mod};
use vstd::arithmetic::mul::lemma_mul_is_commutative;
use crate::tick_math::{
    magic_factor, mul_shift, tick_bit, ratio_rec, tick_ratio, low_chain,
    spec_sqrt_price_at_tick, lemma_low_chain_values, lemma_magic_factor_bounds,
    lemma_mul_shift_bounds, lemma_price_extremes, lemma_tick_ratio_range,
    MIN_TICK, MAX_TICK, MIN_SQRT_PRICE_X64, MAX_SQRT_PRICE_X64,
};

verus! {

/// Powers of 2^64.
pub open spec fn qpow(k: nat) -> int
    decreases k,
{
    if k == 0 {
        1
    } else {
        0x1_0000_0000_0000_0000 * qpow((k - 1) as nat)
    }
}

/// How many of bits `j..19` of `n` are set.
pub open spec fn cnt_bits(n: nat, j: nat) -> nat
    decreases 19 - j,
{
    if j >= 19 {
        0
    } else {
        (if tick_bit(n, j) { 1nat } else { 0nat }) + cnt_bits(n, j + 1)
    }
}

/// The product of the magic factors at the set bits `j..19` of `n`.
pub open spec fn prod_bits(n: nat, j: nat) -> int
    decreases 19 - j,
{
    if j >= 19 {
        1
    } else {
        (if tick_bit(n, j) { magic_factor(j) } else { 1 }) * prod_bits(n, j + 1)
    }
}

/// The product of all magic factors at bits `j..19`.
pub open spec fn tail_prod(j: nat) -> int
    decreases 19 - j,
{
    if j >= 19 {
        1
    } else {
        magic_factor(j) * tail_prod(j + 1)
    }
}

proof fn lemma_qpow_pos(k: nat)
    ensures
        qpow(k) >= 1,
    decreases k,
{
    if k > 0 {
        lemma_qpow_pos((k - 1) as nat);
        assert(qpow(k) == 0x1_0000_0000_0000_0000 * qpow((k - 1) as nat));
        assert(0x1_0000_0000_0000_0000 * qpow((k - 1) as nat) >= 1) by (nonlinear_arith)
            requires
                qpow((k - 1) as nat) >= 1,
        ;
    }
}

proof fn lemma_qpow_adds(a: nat, b: nat)
    ensures
        qpow((a + b) as nat) == qpow(a) * qpow(b),
    decreases a,
{
    if a == 0 {
        lemma_qpow_pos(b);
        assert(qpow(0) == 1);
        assert(1 * qpow(b) == qpow(b)) by (nonlinear_arith);
    } else {
        lemma_qpow_adds((a - 1) as nat, b);
        assert(qpow((a + b) as nat) == 0x1_0000_0000_0000_0000 * qpow((a + b - 1) as nat));
        assert(qpow(a) == 0x1_0000_0000_0000_0000 * qpow((a - 1) as nat));
        assert(0x1_0000_0000_0000_0000 * (qpow((a - 1) as nat) * qpow(b))
            == (0x1_0000_0000_0000_0000 * qpow((a - 1) as nat)) * qpow(b)) by (nonlinear_arith);
    }
}

/// One floor step loses less than one unit of the scaled gap.
proof fn lemma_mul_shift_gap(a: int, b: int, c: int)
    requires
        0 <= b <= a,
        0 <= c,
    ensures
        0x1_0000_0000_0000_0000 * (mul_shift(a, c) - mul_shift(b, c))
            >= (a - b) * c - 0x1_0000_0000_0000_0000,
{
    let qq: int = 0x1_0000_0000_0000_0000;
    lemma_fundamental_div_mod(a * c, qq);
    lemma_fundamental_div_mod(b * c, qq);
    assert(qq * ((a * c) / qq) >= a * c - (qq - 1));
    assert(qq * ((b * c) / qq) <= b * c);
    assert((a - b) * c == a * c - b * c) by (nonlinear_arith);
}

/// Bounds on the partial products: at most `19 - j` factors, each in
/// `[1, 2^64)`.
proof fn lemma_prod_bits_bounds(n: nat, j: nat)
    ensures
        1 <= prod_bits(n, j),
        prod_bits(n, j) <= qpow(cnt_bits(n, j)),
        cnt_bits(n, j) <= 19 - j || j >= 19,
    decreases 19 - j,
{
    lemma_magic_factor_bounds();
    if j < 19 {
        lemma_prod_bits_bounds(n, j + 1);
        let p1 = prod_bits(n, j + 1);
        let c1 = cnt_bits(n, j + 1);
        if tick_bit(n, j) {
            assert(prod_bits(n, j) == magic_factor(j) * p1);
            assert(1 <= magic_factor(j) * p1
                && magic_factor(j) * p1 <= 0x1_0000_0000_0000_0000 * qpow(c1))
                by (nonlinear_arith)
                requires
                    1 <= magic_factor(j) <= 0x1_0000_0000_0000_0000,
                    1 <= p1 <= qpow(c1),
            ;
            assert(qpow(cnt_bits(n, j)) == 0x1_0000_0000_0000_0000 * qpow(c1));
        } else {
            assert(prod_bits(n, j) == 1 * p1);
            assert(1 * p1 == p1) by (nonlinear_arith);
        }
    }
}

/// Gap propagation: folding the same selected factors over two starting
/// values keeps their difference, up to one floor loss per applied factor.
proof fn lemma_ratio_gap(n: nat, j: nat, a: int, b: int)
    requires
        j <= 19,
        0 <= b <= a <= 0x1_0000_0000_0000_0000,
    ensures
        ratio_rec(n, j, b) <= ratio_rec(n, j, a),
        (ratio_rec(n, j, a) - ratio_rec(n, j, b)) * qpow(cnt_bits(n, j))
            >= (a - b) * prod_bits(n, j) - (cnt_bits(n, j) as int) * qpow(cnt_bits(n, j)),
    decreases 19 - j,
{
    lemma_magic_factor_bounds();
    lemma_qpow_pos(cnt_bits(n, j));
    if j >= 19 {
        assert(cnt_bits(n, j) == 0);
        assert(qpow(0) == 1);
        assert((a - b) * 1 == a - b) by (nonlinear_arith);
        assert(prod_bits(n, j) == 1);
    } else if tick_bit(n, j) {
        let c = magic_factor(j);
        let a2 = mul_shift(a, c);
        let b2 = mul_shift(b, c);
        lemma_mul_shift_bounds(b, a, c);
        lemma_mul_shift_gap(a, b, c);
        lemma_ratio_gap(n, j + 1, a2, b2);
        let qq: int = 0x1_0000_0000_0000_0000;
        let cnt1 = cnt_bits(n, j + 1);
        let prod1 = prod_bits(n, j + 1);
        let ra = ratio_rec(n, j + 1, a2);
        let rb = ratio_rec(n, j + 1, b2);
        lemma_prod_bits_bounds(n, j + 1);
        lemma_qpow_pos(cnt1);
        assert(ratio_rec(n, j, a) == ra);
        assert(ratio_rec(n, j, b) == rb);
        assert(cnt_bits(n, j) == cnt1 + 1);
        assert(prod_bits(n, j) == c * prod1);
        assert(qpow((cnt1 + 1) as nat) == qq * qpow(cnt1));
        // scale the inner bound by qq and feed in the one-step gap bound
        assert((ra - rb) * (qq * qpow(cnt1))
            >= (a - b) * (c * prod1) - ((cnt1 + 1) as int) * (qq * qpow(cnt1)))
            by (nonlinear_arith)
            requires
                (ra - rb) * qpow(cnt1) >= (a2 - b2) * prod1 - (cnt1 as int) * qpow(cnt1),
                qq * (a2 - b2) >= (a - b) * c - qq,
                qpow(cnt1) >= 1,
                prod1 >= 1,
                prod1 <= qpow(cnt1),
                ra - rb >= 0,
                a2 - b2 >= 0,
                a - b >= 0,
                qq == 0x1_0000_0000_0000_0000,
        ;
    } else {
        lemma_ratio_gap(n, j + 1, a, b);
        assert(ratio_rec(n, j, a) == ratio_rec(n, j + 1, a));
        assert(ratio_rec(n, j, b) == ratio_rec(n, j + 1, b));
        assert(cnt_bits(n, j) == cnt_bits(n, j + 1));
        assert(prod_bits(n, j) == 1 * prod_bits(n, j + 1));
        assert(1 * prod_bits(n, j + 1) == prod_bits(n, j + 1)) by (nonlinear_arith);
    }
}

/// The product over any subset of bits, padded with one factor of 2^64 for
/// each unused position, dominates the product over all positions.
proof fn lemma_subset_tail(n: nat, j: nat)
    requires
        j <= 19,
    ensures
        prod_bits(n, j) * qpow((19 - j - cnt_bits(n, j)) as nat) >= tail_prod(j),
        tail_prod(j) >= 1,
    decreases 19 - j,
{
    lemma_magic_factor_bounds();
    lemma_prod_bits_bounds(n, j);
    if j >= 19 {
        assert(qpow(0) == 1);
        assert(1 * 1 == 1) by (nonlinear_arith);
    } else {
        lemma_subset_tail(n, j + 1);
        let c = magic_factor(j);
        let p1 = prod_bits(n, j + 1);
        let c1 = cnt_bits(n, j + 1);
        let e1: nat = (19 - (j + 1) - c1) as nat;
        lemma_prod_bits_bounds(n, j + 1);
        lemma_qpow_pos(e1);
        assert(tail_prod(j) == c * tail_prod(j + 1));
        assert(tail_prod(j + 1) >= 1);
        assert(c * tail_prod(j + 1) >= 1) by (nonlinear_arith)
            requires
                c >= 1,
                tail_prod(j + 1) >= 1,
        ;
        if tick_bit(n, j) {
            assert(cnt_bits(n, j) == c1 + 1);
            assert(prod_bits(n, j) == c * p1);
            assert((19 - j - cnt_bits(n, j)) as nat == e1);
            assert((c * p1) * qpow(e1) >= c * tail_prod(j + 1)) by (nonlinear_arith)
                requires
                    p1 * qpow(e1) >= tail_prod(j + 1),
                    c >= 1,
                    p1 >= 1,
                    qpow(e1) >= 1,
            ;
        } else {
            assert(cnt_bits(n, j) == c1);
            assert(prod_bits(n, j) == 1 * p1);
            assert(1 * p1 == p1) by (nonlinear_arith);
            assert((19 - j - cnt_bits(n, j)) as nat == (e1 + 1) as nat);
            assert(qpow((e1 + 1) as nat) == 0x1_0000_0000_0000_0000 * qpow(e1));
            assert(p1 * (0x1_0000_0000_0000_0000 * qpow(e1))
                >= c * tail_prod(j + 1)) by (nonlinear_arith)
                requires
                    p1 * qpow(e1) >= tail_prod(j + 1),
                    1 <= c <= 0x1_0000_0000_0000_0000,
                    p1 >= 1,
                    qpow(e1) >= 1,
                    tail_prod(j + 1) >= 1,
            ;
        }
    }
}


/// For every bit position, the gap that a carry opens between the two
/// partial products beats the floor losses of the remaining steps: checked
/// concretely against the magic factors.
proof fn lemma_carry_gap_concrete(k: nat)
    requires
        k < 19,
    ensures
        (low_chain(k) - magic_factor(k)) * tail_prod((k + 1) as nat)
            > 18 * qpow((18 - k) as nat),
    decreases k,
{
    lemma_low_chain_values();
    assert(tail_prod(19) == 1);
    assert(tail_prod(18) == 37481735321082 * tail_prod(19));
    assert(tail_prod(17) == 26294789957452057 * tail_prod(18));
    assert(tail_prod(16) == 696457651847595233 * tail_prod(17));
    assert(tail_prod(15) == 3584323654723342297 * tail_prod(16));
    assert(tail_prod(14) == 8131365268884726200 * tail_prod(15));
    assert(tail_prod(13) == 12247334978882834399 * tail_prod(14));
    assert(tail_prod(12) == 15030750278693429944 * tail_prod(13));
    assert(tail_prod(11) == 16651378430235024244 * tail_prod(12));
    assert(tail_prod(10) == 17526086738831147013 * tail_prod(11));
    assert(tail_prod(9) == 17980523815641551639 * tail_prod(10));
    assert(tail_prod(8) == 18212142134806087854 * tail_prod(9));
    assert(tail_prod(7) == 18329067761203520168 * tail_prod(8));
    assert(tail_prod(6) == 18387811781193591352 * tail_prod(7));
    assert(tail_prod(5) == 18417254355718160513 * tail_prod(6));
    assert(tail_prod(4) == 18431993317065449817 * tail_prod(5));
    assert(tail_prod(3) == 18439367220385604838 * tail_prod(4));
    assert(tail_prod(2) == 18443055278223354162 * tail_prod(3));
    assert(tail_prod(1) == 18444899583751176498 * tail_prod(2));
    assert(tail_prod(0) == 18445821805675392311 * tail_prod(1));
    assert(qpow(0) == 1);
    assert(qpow(1) == 0x1_0000_0000_0000_0000 * qpow(0));
    assert(qpow(2) == 0x1_0000_0000_0000_0000 * qpow(1));
    assert(qpow(3) == 0x1_0000_0000_0000_0000 * qpow(2));
    assert(qpow(4) == 0x1_0000_0000_0000_0000 * qpow(3));
    assert(qpow(5) == 0x1_0000_0000_0000_0000 * qpow(4));
    assert(qpow(6) == 0x1_0000_0000_0000_0000 * qpow(5));
    assert(qpow(7) == 0x1_0000_0000_0000_0000 * qpow(6));
    assert(qpow(8) == 0x1_0000_0000_0000_0000 * qpow(7));
    assert(qpow(9) == 0x1_0000_0000_0000_0000 * qpow(8));
    assert(qpow(10) == 0x1_0000_0000_0000_0000 * qpow(9));
    assert(qpow(11) == 0x1_0000_0000_0000_0000 * qpow(10));
    assert(qpow(12) == 0x1_0000_0000_0000_0000 * qpow(11));
    assert(qpow(13) == 0x1_0000_0000_0000_0000 * qpow(12));
    assert(qpow(14) == 0x1_0000_0000_0000_0000 * qpow(13));
    assert(qpow(15) == 0x1_0000_0000_0000_0000 * qpow(14));
    assert(qpow(16) == 0x1_0000_0000_0000_0000 * qpow(15));
    assert(qpow(17) == 0x1_0000_0000_0000_0000 * qpow(16));
    assert(qpow(18) == 0x1_0000_0000_0000_0000 * qpow(17));
        if k == 0 {
            assert((low_chain(0) - magic_factor(0)) * tail_prod(1)
                > 18 * qpow(18));
        } else if k == 1 {
            assert((low_chain(1) - magic_factor(1)) * tail_prod(2)
                > 18 * qpow(17));
        } else if k == 2 {
            assert((low_chain(2) - magic_factor(2)) * tail_prod(3)
                > 18 * qpow(16));
        } else if k == 3 {
            assert((low_chain(3) - magic_factor(3)) * tail_prod(4)
                > 18 * qpow(15));
        } else if k == 4 {
            assert((low_chain(4) - magic_factor(4)) * tail_prod(5)
                > 18 * qpow(14));
        } else if k == 5 {
            assert((low_chain(5) - magic_factor(5)) * tail_prod(6)
                > 18 * qpow(13));
        } else if k == 6 {
            assert((low_chain(6) - magic_factor(6)) * tail_prod(7)
                > 18 * qpow(12));
        } else if k == 7 {
            assert((low_chain(7) - magic_factor(7)) * tail_prod(8)
                > 18 * qpow(11));
        } else if k == 8 {
            assert((low_chain(8) - magic_factor(8)) * tail_prod(9)
                > 18 * qpow(10));
        } else if k == 9 {
            assert((low_chain(9) - magic_factor(9)) * tail_prod(10)
                > 18 * qpow(9));
        } else if k == 10 {
            assert((low_chain(10) - magic_factor(10)) * tail_prod(11)
                > 18 * qpow(8));
        } else if k == 11 {
            assert((low_chain(11) - magic_factor(11)) * tail_prod(12)
                > 18 * qpow(7));
        } else if k == 12 {
            assert((low_chain(12) - magic_factor(12)) * tail_prod(13)
                > 18 * qpow(6));
        } else if k == 13 {
            assert((low_chain(13) - magic_factor(13)) * tail_prod(14)
                > 18 * qpow(5));
        } else if k == 14 {
            assert((low_chain(14) - magic_factor(14)) * tail_prod(15)
                > 18 * qpow(4));
        } else if k == 15 {
            assert((low_chain(15) - magic_factor(15)) * tail_prod(16)
                > 18 * qpow(3));
        } else if k == 16 {
            assert((low_chain(16) - magic_factor(16)) * tail_prod(17)
                > 18 * qpow(2));
        } else if k == 17 {
            assert((low_chain(17) - magic_factor(17)) * tail_prod(18)
                > 18 * qpow(1));
        } else if k == 18 {
            assert((low_chain(18) - magic_factor(18)) * tail_prod(19)
                > 18 * qpow(0));
        }
}


/// Bit `i` of `n` is bit `i - 1` of `n / 2`.
proof fn lemma_bit_shift(n: nat, i: nat)
    requires
        i >= 1,
    ensures
        tick_bit(n, i) == tick_bit(n / 2, (i - 1) as nat),
{
    lemma_pow2_pos((i - 1) as nat);
    lemma_pow2_adds(1, (i - 1) as nat);
    lemma2_to64();
    lemma_div_denominator(n as int, 2, pow2((i - 1) as nat) as int);
    assert(n as int / (2 * pow2((i - 1) as nat) as int) == (n / 2) as int / (pow2((i - 1) as nat) as int));
    assert(pow2(i) as int == 2 * pow2((i - 1) as nat) as int);
}

/// Bit `0` of `n` reads its parity.
proof fn lemma_bit_zero(n: nat)
    ensures
        tick_bit(n, 0) == (n % 2 == 1),
{
    lemma2_to64();
    assert(n / pow2(0) == n);
}

/// A carry: adding one to `n` clears a run of trailing one bits, sets the
/// next bit, and leaves every higher bit alone. Returns the length of the
/// run.
proof fn lemma_carry(n: nat) -> (k: nat)
    requires
        n + 1 < pow2(19),
    ensures
        k < 19,
        forall|i: nat| i < k ==> #[trigger] tick_bit(n, i),
        !tick_bit(n, k),
        forall|i: nat| i < k ==> !#[trigger] tick_bit(n + 1, i),
        tick_bit(n + 1, k),
        forall|i: nat| k < i ==> #[trigger] tick_bit(n + 1, i) == tick_bit(n, i),
    decreases n,
{
    lemma2_to64();
    lemma2_to64_rest();
    if n % 2 == 0 {
        let k: nat = 0;
        lemma_bit_zero(n);
        lemma_bit_zero(n + 1);
        assert((n + 1) % 2 == 1);
        assert forall|i: nat| k < i implies #[trigger] tick_bit(n + 1, i) == tick_bit(n, i) by {
            lemma_bit_shift(n, i);
            lemma_bit_shift(n + 1, i);
            assert((n + 1) / 2 == n / 2);
        }
        k
    } else {
        let m = n / 2;
        assert(n == 2 * m + 1);
        assert(m + 1 < pow2(18)) by {
            lemma_pow2_adds(18, 1);
        };
        lemma_pow2_strictly_increases(18, 19);
        let k1 = lemma_carry(m);
        let k: nat = k1 + 1;
        lemma_bit_zero(n);
        lemma_bit_zero(n + 1);
        assert((n + 1) / 2 == m + 1);
        assert((n + 1) % 2 == 0);
        assert forall|i: nat| i < k implies #[trigger] tick_bit(n, i) by {
            if i == 0 {
            } else {
                lemma_bit_shift(n, i);
                assert(tick_bit(m, (i - 1) as nat));
            }
        }
        assert(!tick_bit(n, k)) by {
            lemma_bit_shift(n, k);
        };
        assert forall|i: nat| i < k implies !#[trigger] tick_bit(n + 1, i) by {
            if i == 0 {
            } else {
                lemma_bit_shift(n + 1, i);
                assert(!tick_bit(m + 1, (i - 1) as nat));
            }
        }
        assert(tick_bit(n + 1, k)) by {
            lemma_bit_shift(n + 1, k);
        };
        assert(k < 19) by {
            if k >= 19 {
                if k > 19 {
                    lemma_pow2_strictly_increases(19, k);
                }
                vstd::arithmetic::div_mod::lemma_basic_div((n + 1) as int, pow2(k) as int);
                assert((n + 1) as int / (pow2(k) as int) == 0);
                assert(!tick_bit(n + 1, k));
            }
        };
        assert forall|i: nat| k < i implies #[trigger] tick_bit(n + 1, i) == tick_bit(n, i) by {
            lemma_bit_shift(n, i);
            lemma_bit_shift(n + 1, i);
            assert(tick_bit(m + 1, (i - 1) as nat) == tick_bit(m, (i - 1) as nat));
        }
        k
    }
}

/// Folding from a position where all lower bits of `n` are set and bit `k`
/// is clear reaches the all-factors chain value.
proof fn lemma_low_prefix(n: nat, k: nat, j: nat)
    requires
        j <= k < 19,
        forall|i: nat| i < k ==> #[trigger] tick_bit(n, i),
        !tick_bit(n, k),
    ensures
        ratio_rec(n, j, low_chain(j)) == ratio_rec(n, (k + 1) as nat, low_chain(k)),
    decreases 19 - j,
{
    lemma_magic_factor_bounds();
    if j == k {
        assert(ratio_rec(n, k, low_chain(k)) == ratio_rec(n, (k + 1) as nat, low_chain(k)));
    } else {
        assert(tick_bit(n, j));
        assert(ratio_rec(n, j, low_chain(j))
            == ratio_rec(n, j + 1, mul_shift(low_chain(j), magic_factor(j))));
        assert(low_chain((j + 1) as nat) == mul_shift(low_chain(j), magic_factor(j)));
        lemma_low_prefix(n, k, j + 1);
    }
}

/// Folding from a position where all lower bits of `n` are clear leaves the
/// start value unchanged until bit `k`.
proof fn lemma_clear_prefix(n: nat, k: nat, j: nat, r: int)
    requires
        j <= k < 19,
        forall|i: nat| i < k ==> !#[trigger] tick_bit(n, i),
    ensures
        ratio_rec(n, j, r) == ratio_rec(n, k, r),
    decreases 19 - j,
{
    if j < k {
        assert(!tick_bit(n, j));
        assert(ratio_rec(n, j, r) == ratio_rec(n, j + 1, r));
        lemma_clear_prefix(n, k, j + 1, r);
    }
}

/// Two numbers with the same bits from position `j` up fold identically.
proof fn lemma_suffix_eq(n1: nat, n2: nat, j: nat, r: int)
    requires
        forall|i: nat| j <= i < 19 ==> #[trigger] tick_bit(n1, i) == tick_bit(n2, i),
    ensures
        ratio_rec(n1, j, r) == ratio_rec(n2, j, r),
    decreases 19 - j,
{
    if j < 19 {
        assert(tick_bit(n1, j) == tick_bit(n2, j));
        if tick_bit(n1, j) {
            lemma_suffix_eq(n1, n2, j + 1, mul_shift(r, magic_factor(j)));
        } else {
            lemma_suffix_eq(n1, n2, j + 1, r);
        }
    }
}

/// The per-bit product strictly decreases from one tick magnitude to the
/// next.
proof fn lemma_tick_ratio_adjacent(n: nat)
    requires
        n + 1 <= 443636,
    ensures
        tick_ratio(n + 1) < tick_ratio(n),
{
    lemma2_to64();
    lemma2_to64_rest();
    lemma_low_chain_values();
    lemma_magic_factor_bounds();
    assert(n + 1 < pow2(19));
    let k = lemma_carry(n);
    let a = low_chain(k);
    let b = magic_factor(k);
    // tick_ratio(n) folds the low run into low_chain(k)
    assert(tick_ratio(n) == ratio_rec(n, (k + 1) as nat, a)) by {
        if k == 0 {
            assert(ratio_rec(n, 0, low_chain(0)) == ratio_rec(n, 1, low_chain(0)));
        } else {
            lemma_low_prefix(n, k, 0);
        }
    };
    // tick_ratio(n + 1) starts fresh and applies only bit k below k + 1
    assert(tick_ratio(n + 1) == ratio_rec(n + 1, (k + 1) as nat, b)) by {
        lemma_clear_prefix((n + 1) as nat, k, 0, 0x1_0000_0000_0000_0000);
        assert(ratio_rec(n + 1, k, 0x1_0000_0000_0000_0000)
            == ratio_rec(n + 1, (k + 1) as nat, mul_shift(0x1_0000_0000_0000_0000, b)));
        assert(mul_shift(0x1_0000_0000_0000_0000, b) == b) by {
            lemma_mul_is_commutative(0x1_0000_0000_0000_0000, b);
            lemma_div_multiples_vanish(b, 0x1_0000_0000_0000_0000);
        };
    };
    // the two folds share every bit above k
    assert(ratio_rec(n + 1, (k + 1) as nat, b) == ratio_rec(n, (k + 1) as nat, b)) by {
        assert(forall|i: nat| (k + 1) <= i < 19
            ==> #[trigger] tick_bit(n + 1, i) == tick_bit(n, i));
        lemma_suffix_eq((n + 1) as nat, n, (k + 1) as nat, b);
    };
    // the gap at position k + 1 survives the remaining floors
    let cnt = cnt_bits(n, (k + 1) as nat);
    let prod = prod_bits(n, (k + 1) as nat);
    let ra = ratio_rec(n, (k + 1) as nat, a);
    let rb = ratio_rec(n, (k + 1) as nat, b);
    lemma_ratio_gap(n, (k + 1) as nat, a, b);
    lemma_prod_bits_bounds(n, (k + 1) as nat);
    lemma_subset_tail(n, (k + 1) as nat);
    lemma_carry_gap_concrete(k);
    let e: nat = (19 - (k + 1) - cnt) as nat;
    lemma_qpow_pos(e);
    lemma_qpow_pos(cnt);
    lemma_qpow_adds(cnt, e);
    assert(qpow((18 - k) as nat) == qpow(cnt) * qpow(e));
    // (a - b) * prod > 18 * qpow(cnt), by cancelling qpow(e)
    assert((a - b) * prod > 18 * qpow(cnt)) by (nonlinear_arith)
        requires
            prod * qpow(e) >= tail_prod((k + 1) as nat),
            (a - b) * tail_prod((k + 1) as nat) > 18 * (qpow(cnt) * qpow(e)),
            a - b >= 0,
            qpow(e) >= 1,
            qpow(cnt) >= 1,
            prod >= 1,
            tail_prod((k + 1) as nat) >= 1,
    ;
    // hence the folded gap is positive
    assert(ra - rb > 0) by (nonlinear_arith)
        requires
            (ra - rb) * qpow(cnt) >= (a - b) * prod - (cnt as int) * qpow(cnt),
            (a - b) * prod > 18 * qpow(cnt),
            cnt <= 18,
            qpow(cnt) >= 1,
    ;
}

/// The per-bit product strictly decreases over the whole tick range.
pub proof fn lemma_tick_ratio_decreasing(n1: nat, n2: nat)
    requires
        n1 < n2 <= 443636,
    ensures
        tick_ratio(n2) < tick_ratio(n1),
    decreases n2 - n1,
{
    lemma_tick_ratio_adjacent((n2 - 1) as nat);
    if n1 < n2 - 1 {
        lemma_tick_ratio_decreasing(n1, (n2 - 1) as nat);
    }
}


/// Folding over positions where no bit of `n` is set leaves `r` unchanged.
proof fn lemma_no_bits(n: nat, j: nat, r: int)
    requires
        forall|i: nat| j <= i < 19 ==> !#[trigger] tick_bit(n, i),
    ensures
        ratio_rec(n, j, r) == r,
    decreases 19 - j,
{
    if j < 19 {
        assert(!tick_bit(n, j));
        lemma_no_bits(n, j + 1, r);
    }
}

/// The per-bit product at magnitude one is the first magic factor.
proof fn lemma_tick_ratio_one()
    ensures
        tick_ratio(1) == magic_factor(0),
{
    lemma2_to64();
    assert(tick_bit(1, 0)) by {
        assert(1nat / pow2(0) == 1);
    };
    assert(ratio_rec(1, 0, 0x1_0000_0000_0000_0000)
        == ratio_rec(1, 1, mul_shift(0x1_0000_0000_0000_0000, magic_factor(0))));
    assert(mul_shift(0x1_0000_0000_0000_0000, magic_factor(0)) == magic_factor(0)) by {
        lemma_mul_is_commutative(0x1_0000_0000_0000_0000, magic_factor(0));
        lemma_div_multiples_vanish(magic_factor(0), 0x1_0000_0000_0000_0000);
    };
    assert forall|i: nat| 1 <= i < 19 implies !#[trigger] tick_bit(1, i) by {
        lemma_pow2_pos(i);
        if pow2(i) < 2 {
            lemma_pow2_strictly_increases(0, i);
        }
        vstd::arithmetic::div_mod::lemma_basic_div(1, pow2(i) as int);
    }
    lemma_no_bits(1, 1, magic_factor(0));
}

/// A larger positive divisor gives a quotient that is no larger.
proof fn lemma_div_anti_monotone(m: int, a: int, b: int)
    requires
        1 <= a <= b,
        m >= 0,
    ensures
        m / b <= m / a,
{
    let x = m / b;
    lemma_fundamental_div_mod(m, b);
    assert(x >= 0) by (nonlinear_arith)
        requires
            m == b * x + m % b,
            0 <= m % b < b,
            m >= 0,
            b >= 1,
    ;
    assert(a * x <= m) by (nonlinear_arith)
        requires
            m == b * x + m % b,
            0 <= m % b,
            1 <= a <= b,
            x >= 0,
    ;
    assert(x <= m / a) by (nonlinear_arith)
        requires
            a * x <= m,
            a >= 1,
            x >= 0,
    ;
}

/// A strictly larger divisor gives a strictly smaller quotient, as long as
/// the dividend dominates the divisor's square.
proof fn lemma_div_flip_strict(m: int, a: int, b: int)
    requires
        1 <= a < b,
        b * (b - 1) <= m,
    ensures
        m / b < m / a,
{
    let x = m / b;
    lemma_fundamental_div_mod(m, b);
    assert(x >= b - 1) by (nonlinear_arith)
        requires
            m == b * x + m % b,
            0 <= m % b < b,
            b * (b - 1) <= m,
            b >= 2,
    ;
    assert(a * (x + 1) <= m) by (nonlinear_arith)
        requires
            m == b * x + m % b,
            0 <= m % b,
            1 <= a <= b - 1,
            x >= b - 1,
    ;
    assert(x + 1 <= m / a) by (nonlinear_arith)
        requires
            a * (x + 1) <= m,
            a >= 1,
            x + 1 >= 0,
    ;
}

/// Law: the square-root price is strictly increasing in the tick over the
/// whole tick range.
pub proof fn lemma_sqrt_price_monotonic(t1: int, t2: int)
    requires
        MIN_TICK <= t1 < t2 <= MAX_TICK,
    ensures
        spec_sqrt_price_at_tick(t1) < spec_sqrt_price_at_tick(t2),
{
    let m: int = 0xffff_ffff_ffff_ffff_ffff_ffff_ffff_ffff;
    lemma_low_chain_values();
    lemma_magic_factor_bounds();
    lemma_tick_ratio_one();
    if t2 <= 0 {
        lemma_tick_ratio_decreasing((-t2) as nat, (-t1) as nat);
    } else if t1 > 0 {
        let ra = tick_ratio(t2 as nat);
        let rb = tick_ratio(t1 as nat);
        if t1 < t2 {
            lemma_tick_ratio_decreasing(t1 as nat, t2 as nat);
        }
        lemma_tick_ratio_range(t1 as nat);
        lemma_tick_ratio_range(t2 as nat);
        if t1 == 1 {
        } else {
            lemma_tick_ratio_decreasing(1, t1 as nat);
        }
        assert(rb <= magic_factor(0));
        assert(rb * (rb - 1) <= 18445821805675392311 * 18445821805675392311)
            by (nonlinear_arith)
            requires
                1 <= rb <= 18445821805675392311,
        ;
        assert(rb * (rb - 1) <= m);
        lemma_div_flip_strict(m, ra, rb);
    } else {
        // t1 <= 0 < t2: prices at or below one meet prices above one
        let r1 = tick_ratio((-t1) as nat);
        let r2 = tick_ratio(t2 as nat);
        lemma_tick_ratio_range((-t1) as nat);
        lemma_tick_ratio_range(t2 as nat);
        if t1 < 0 {
            lemma_tick_ratio_decreasing(0, (-t1) as nat);
        }
        assert(ratio_rec(0, 0, 0x1_0000_0000_0000_0000) == 0x1_0000_0000_0000_0000) by {
            assert forall|i: nat| 0 <= i < 19 implies !#[trigger] tick_bit(0, i) by {
                lemma_pow2_pos(i);
                vstd::arithmetic::div_mod::lemma_basic_div(0, pow2(i) as int);
            }
            lemma_no_bits(0, 0, 0x1_0000_0000_0000_0000);
        };
        assert(r1 <= 0x1_0000_0000_0000_0000);
        if t2 > 1 {
            lemma_tick_ratio_decreasing(1, t2 as nat);
        }
        assert(r2 <= magic_factor(0));
        lemma_div_anti_monotone(m, r2, magic_factor(0));
        assert(m / magic_factor(0) <= m / r2);
        assert(m / 18445821805675392311int > 0x1_0000_0000_0000_0000);
    }
}

/// The square-root price of every tick in range lies between the price
/// bounds.
pub proof fn lemma_sqrt_price_in_range(t: int)
    requires
        MIN_TICK <= t <= MAX_TICK,
    ensures
        MIN_SQRT_PRICE_X64 <= spec_sqrt_price_at_tick(t) <= MAX_SQRT_PRICE_X64,
{
    lemma_price_extremes();
    if MIN_TICK < t {
        lemma_sqrt_price_monotonic(MIN_TICK as int, t);
    }
    if t < MAX_TICK {
        lemma_sqrt_price_monotonic(t, MAX_TICK as int);
    }
}

/// Law: a tick is pinned down exactly by its price bracket, so converting a
/// tick to its square-root price and back returns the same tick.
pub proof fn lemma_tick_bracket_unique(t: int, r: int)
    requires
        MIN_TICK <= t <= MAX_TICK,
        MIN_TICK <= r <= MAX_TICK,
        spec_sqrt_price_at_tick(r) <= spec_sqrt_price_at_tick(t),
        r < MAX_TICK ==> spec_sqrt_price_at_tick(t) < spec_sqrt_price_at_tick(r + 1),
    ensures
        r == t,
{
    if r < t {
        lemma_sqrt_price_monotonic(r + 1, t);
        if r + 1 < t {
        }
        assert(r < MAX_TICK);
        if r + 1 == t {
            assert(spec_sqrt_price_at_tick(t) < spec_sqrt_price_at_tick(r + 1));
        }
        assert(false);
    }
    if r > t {
        lemma_sqrt_price_monotonic(t, r);
        assert(false);
    }
}

} // verus!
