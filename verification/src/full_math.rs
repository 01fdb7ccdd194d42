//! Wide integer arithmetic: 128x128 -> 256-bit products and 256/128-bit
//! division, so that price and liquidity math never wraps silently.

use vstd::prelude::*;
use vstd::arithmetic::power2::{
    pow2, lemma_pow2_adds, lemma_pow2_pos, lemma2_to64, lemma2_to64_rest,
};
use vstd::arithmetic::div_mod::{
    lemma_div_denominator, lemma_div_multiples_vanish, lemma_truncate_middle,
    lemma_fundamental_div_mod, lemma_mod_mod, lemma_small_mod,
};
use vstd::arithmetic::mul::lemma_mul_is_commutative;
use crate::errors::LiquidityError;

verus! {

/// The value of a 256-bit quantity given as a high and a low 128-bit half.
pub open spec fn u256_val(hi: u128, lo: u128) -> int {
    hi * 0x1_0000_0000_0000_0000_0000_0000_0000_0000 + lo
}

/// Splitting two factors into high and low limbs splits their product.
proof fn lemma_limb_split(a_hi: int, a_lo: int, b_hi: int, b_lo: int, qq: int)
    by (nonlinear_arith)
    requires
        qq > 0,
        0 <= a_lo < qq,
        0 <= b_lo < qq,
        0 <= a_hi < qq,
        0 <= b_hi < qq,
    ensures
        (a_hi * qq + a_lo) * (b_hi * qq + b_lo) == (a_hi * b_hi) * (qq * qq)
            + (a_lo * b_hi) * qq + (a_hi * b_lo) * qq + a_lo * b_lo,
        a_lo * b_lo <= (qq - 1) * (qq - 1),
        a_lo * b_hi <= (qq - 1) * (qq - 1),
        a_hi * b_lo <= (qq - 1) * (qq - 1),
        a_hi * b_hi <= (qq - 1) * (qq - 1),
        a_lo * b_lo >= 0,
        a_lo * b_hi >= 0,
        a_hi * b_lo >= 0,
        a_hi * b_hi >= 0,
{
}

/// Full 128x128 -> 256-bit product, returned as (high, low) halves.
pub fn mul_u128(a: u128, b: u128) -> (r: (u128, u128))
    ensures
        u256_val(r.0, r.1) == a * b,
{
    let q64: u128 = 0x1_0000_0000_0000_0000;
    let a_hi = a / q64;
    let a_lo = a % q64;
    let b_hi = b / q64;
    let b_lo = b % q64;
    proof {
        lemma_limb_split(a_hi as int, a_lo as int, b_hi as int, b_lo as int,
            0x1_0000_0000_0000_0000);
    }
    let ll = a_lo * b_lo;
    let lh = a_lo * b_hi;
    let hl = a_hi * b_lo;
    let hh = a_hi * b_hi;
    let ll_hi = ll / q64;
    let ll_lo = ll % q64;
    let lh_hi = lh / q64;
    let lh_lo = lh % q64;
    let hl_hi = hl / q64;
    let hl_lo = hl % q64;
    let t = lh_lo + hl_lo + ll_hi;
    let t_hi = t / q64;
    let t_lo = t % q64;
    let lo = t_lo * q64 + ll_lo;
    let hi = hh + lh_hi + hl_hi + t_hi;
    proof {
        assert(a * b == hh * 0x1_0000_0000_0000_0000_0000_0000_0000_0000
            + lh * 0x1_0000_0000_0000_0000 + hl * 0x1_0000_0000_0000_0000 + ll);
        assert(u256_val(hi, lo) == a * b);
    }
    (hi, lo)
}

/// One step of binary long division: how the register that shifts the low
/// half relates to the bit it yields and to the bits that remain.
proof fn lemma_shift_register_step(n_lo: int, i: nat, cur: int)
    requires
        0 <= i < 128,
        0 <= n_lo < pow2(128),
        cur == (n_lo % (pow2((128 - i) as nat) as int)) * (pow2(i) as int),
    ensures
        0 <= cur / (pow2(127) as int) <= 1,
        cur / (pow2(127) as int)
            == (n_lo % (pow2((128 - i) as nat) as int)) / (pow2((127 - i) as nat) as int),
        n_lo % (pow2((127 - i) as nat) as int)
            == (n_lo % (pow2((128 - i) as nat) as int)) % (pow2((127 - i) as nat) as int),
        n_lo % (pow2((128 - i) as nat) as int)
            == (cur / (pow2(127) as int)) * (pow2((127 - i) as nat) as int)
                + n_lo % (pow2((127 - i) as nat) as int),
        (cur % (pow2(127) as int)) * 2
            == (n_lo % (pow2((127 - i) as nat) as int)) * (pow2((i + 1) as nat) as int),
        0 <= cur % (pow2(127) as int) < pow2(127),
{
    let p_hi: int = pow2((128 - i) as nat) as int;
    let p_lo: int = pow2((127 - i) as nat) as int;
    let p_i: int = pow2(i) as int;
    let rest: int = n_lo % p_hi;
    lemma_pow2_pos((127 - i) as nat);
    lemma_pow2_pos((128 - i) as nat);
    lemma_pow2_pos(i);
    lemma_pow2_pos(127);
    lemma2_to64();
    lemma_pow2_adds(i, (127 - i) as nat);
    assert(pow2(127) == p_i * p_lo);
    lemma_pow2_adds((127 - i) as nat, 1);
    assert(p_hi == p_lo * 2);
    lemma_pow2_adds(i, 1);
    assert(pow2((i + 1) as nat) == p_i * 2);
    // cur / 2^127 == rest / 2^(127 - i)
    lemma_mul_is_commutative(rest, p_i);
    lemma_div_multiples_vanish(rest, p_i);
    lemma_div_denominator(rest * p_i, p_i, p_lo);
    lemma_mul_is_commutative(p_i, p_lo);
    assert(cur / (pow2(127) as int) == rest / p_lo);
    let bit: int = rest / p_lo;
    // the bit is 0 or 1 because rest < 2 * p_lo
    assert(0 <= bit <= 1) by (nonlinear_arith)
        requires
            bit == rest / p_lo,
            0 <= rest < 2 * p_lo,
            p_lo > 0,
    ;
    // rest splits as bit * p_lo + (rest % p_lo)
    lemma_fundamental_div_mod(rest, p_lo);
    // rest % p_lo is the remaining low bits of n_lo
    lemma_mod_mod(n_lo, p_lo, 2);
    assert(n_lo % (p_lo * 2) == rest);
    assert(rest % p_lo == n_lo % p_lo);
    // cur % 2^127 == (rest % p_lo) * 2^i
    lemma_truncate_middle(rest, p_i, p_lo);
    assert(cur % (pow2(127) as int) == p_i * (rest % p_lo));
    assert((p_i * (rest % p_lo)) * 2 == (rest % p_lo) * (p_i * 2)) by (nonlinear_arith);
    assert(0 <= p_i * (rest % p_lo) < p_i * p_lo) by (nonlinear_arith)
        requires
            0 <= rest % p_lo < p_lo,
            p_i > 0,
    ;
}

/// Long division of a 256-bit value (hi, lo) by a 128-bit divisor, for
/// quotients that fit in 128 bits (`hi < d`). Returns (quotient, remainder).
pub fn div_u256_u128(n_hi: u128, n_lo: u128, d: u128) -> (r: (u128, u128))
    requires
        d > 0,
        n_hi < d,
    ensures
        r.0 * d + r.1 == u256_val(n_hi, n_lo),
        r.1 < d,
{
    let mut q: u128 = 0;
    let mut r: u128 = n_hi;
    let mut cur: u128 = n_lo;
    let mut i: usize = 0;
    proof {
        lemma2_to64();
        lemma2_to64_rest();
        lemma_pow2_adds(64, 64);
        lemma_pow2_adds(64, 63);
        lemma_small_mod(n_lo as nat, pow2(128));
        assert((n_hi * (pow2(128) as int) + n_lo == u256_val(n_hi, n_lo)));
    }
    while i < 128
        invariant
            0 <= i <= 128,
            d > 0,
            r < d,
            q < pow2(i as nat),
            pow2(128) == 0x1_0000_0000_0000_0000_0000_0000_0000_0000,
            pow2(127) == 0x8000_0000_0000_0000_0000_0000_0000_0000,
            cur == (n_lo as int % (pow2((128 - i) as nat) as int)) * (pow2(i as nat) as int),
            (q * d + r) * (pow2((128 - i) as nat) as int)
                + (n_lo as int % (pow2((128 - i) as nat) as int)) == u256_val(n_hi, n_lo),
        decreases 128 - i,
    {
        let ghost i0 = i as nat;
        let ghost qo = q;
        let ghost ro = r;
        let ghost rest: int = n_lo as int % (pow2((128 - i0) as nat) as int);
        let ghost rest2: int = n_lo as int % (pow2((127 - i0) as nat) as int);
        let ghost v: int = q * d + r;
        proof {
            lemma_pow2_pos(128);
            lemma_shift_register_step(n_lo as int, i0, cur as int);
            if i0 < 127 {
                vstd::arithmetic::power2::lemma_pow2_strictly_increases(i0, 127);
            }
            assert(q < 0x8000_0000_0000_0000_0000_0000_0000_0000);
        }
        let bit = cur / 0x8000_0000_0000_0000_0000_0000_0000_0000u128;
        proof {
            assert(bit == rest / (pow2((127 - i0) as nat) as int));
            assert(bit <= 1);
            assert(rest == bit * (pow2((127 - i0) as nat) as int) + rest2);
            assert(((cur % 0x8000_0000_0000_0000_0000_0000_0000_0000u128) * 2) as int
                == rest2 * (pow2((i0 + 1) as nat) as int));
        }
        cur = (cur % 0x8000_0000_0000_0000_0000_0000_0000_0000u128) * 2;
        // consume one bit: r' = 2*r + bit - qbit*d, q' = 2*q + qbit
        if r >= 0x8000_0000_0000_0000_0000_0000_0000_0000u128 {
            // 2*r + bit >= 2^128 > d, so the quotient bit is 1;
            // 2*r + bit - d == ((r - 2^127)*2 + bit) + (2^128 - 1 - d) + 1
            let r_shift = (r - 0x8000_0000_0000_0000_0000_0000_0000_0000u128) * 2 + bit;
            r = r_shift + (0xffff_ffff_ffff_ffff_ffff_ffff_ffff_ffffu128 - d) + 1;
            q = q * 2 + 1;
            proof {
                assert(r == 2 * ro + bit - d);
                assert(q * d == 2 * (qo * d) + d) by (nonlinear_arith)
                    requires
                        q == 2 * qo + 1,
                ;
                assert(q * d + r == 2 * v + bit);
            }
        } else {
            let t = r * 2 + bit;
            if t >= d {
                r = t - d;
                q = q * 2 + 1;
                proof {
                    assert(q * d == 2 * (qo * d) + d) by (nonlinear_arith)
                        requires
                            q == 2 * qo + 1,
                    ;
                    assert(q * d + r == 2 * v + bit);
                }
            } else {
                r = t;
                q = q * 2;
                proof {
                    assert(q * d == 2 * (qo * d)) by (nonlinear_arith)
                        requires
                            q == 2 * qo,
                    ;
                    assert(q * d + r == 2 * v + bit);
                }
            }
        }
        i = i + 1;
        proof {
            lemma2_to64();
            assert(q < 2 * pow2(i0)) by {
                assert(qo < pow2(i0));
            };
            lemma_pow2_adds(i0, 1);
            lemma_pow2_adds((127 - i0) as nat, 1);
            assert(pow2((i0 + 1) as nat) == pow2(i0) * 2);
            assert(q < pow2(i as nat));
            let pl: int = pow2((128 - i) as nat) as int;
            assert(pl == pow2((127 - i0) as nat) as int);
            let vp: int = 2 * v + bit;
            assert(vp * pl == v * (2 * pl) + bit * pl) by (nonlinear_arith)
                requires
                    vp == 2 * v + bit,
            ;
            assert(2 * pl == pow2((128 - i0) as nat) as int);
            assert(v * (pow2((128 - i0) as nat) as int) + rest == u256_val(n_hi, n_lo));
            assert(vp * pl + rest2 == u256_val(n_hi, n_lo));
            assert((q * d + r) * pl + rest2 == u256_val(n_hi, n_lo));
        }
    }
    proof {
        lemma2_to64();
        assert(pow2(0) == 1);
        assert(n_lo as int % 1int == 0);
        assert((q * d + r) * 1 == q * d + r) by (nonlinear_arith);
    }
    (q, r)
}


/// Long division of a 320-bit value `n2*2^256 + n1*2^128 + n0` by a
/// divisor given as the pair `(d1, d0)`, for quotients that fit in 128
/// bits (`u256_val(n2, n1) < u256_val(d1, d0)`). Returns the quotient and
/// the remainder pair.
pub fn div_u320_u192(n2: u128, n1: u128, n0: u128, d1: u128, d0: u128) -> (r: (u128, u128, u128))
    requires
        u256_val(d1, d0) >= 1,
        d1 < 0x8000_0000_0000_0000_0000_0000_0000_0000,
        u256_val(n2, n1) < u256_val(d1, d0),
    ensures
        r.0 * u256_val(d1, d0) + u256_val(r.1, r.2) == n2
            * 0x1_0000_0000_0000_0000_0000_0000_0000_0000
            * 0x1_0000_0000_0000_0000_0000_0000_0000_0000 + n1
            * 0x1_0000_0000_0000_0000_0000_0000_0000_0000 + n0,
        u256_val(r.1, r.2) < u256_val(d1, d0),
{
    let ghost n_val: int = n2 * 0x1_0000_0000_0000_0000_0000_0000_0000_0000
        * 0x1_0000_0000_0000_0000_0000_0000_0000_0000 + n1
        * 0x1_0000_0000_0000_0000_0000_0000_0000_0000 + n0;
    let ghost d_val: int = u256_val(d1, d0);
    let mut q: u128 = 0;
    let mut r_hi: u128 = n2;
    let mut r_lo: u128 = n1;
    let mut cur: u128 = n0;
    let mut i: usize = 0;
    proof {
        lemma2_to64();
        lemma2_to64_rest();
        lemma_pow2_adds(64, 64);
        lemma_pow2_adds(64, 63);
        lemma_small_mod(n0 as nat, pow2(128));
        assert((0 * d_val + u256_val(n2, n1)) * (pow2(128) as int) + n0 == n_val)
            by (nonlinear_arith)
            requires
                pow2(128) == 0x1_0000_0000_0000_0000_0000_0000_0000_0000,
                u256_val(n2, n1) == n2 * 0x1_0000_0000_0000_0000_0000_0000_0000_0000 + n1,
                n_val == n2 * 0x1_0000_0000_0000_0000_0000_0000_0000_0000
                    * 0x1_0000_0000_0000_0000_0000_0000_0000_0000 + n1
                    * 0x1_0000_0000_0000_0000_0000_0000_0000_0000 + n0,
        ;
    }
    while i < 128
        invariant
            0 <= i <= 128,
            d_val == u256_val(d1, d0),
            d_val >= 1,
            d1 < 0x8000_0000_0000_0000_0000_0000_0000_0000,
            u256_val(r_hi, r_lo) < d_val,
            q < pow2(i as nat),
            pow2(128) == 0x1_0000_0000_0000_0000_0000_0000_0000_0000,
            pow2(127) == 0x8000_0000_0000_0000_0000_0000_0000_0000,
            cur == (n0 as int % (pow2((128 - i) as nat) as int)) * (pow2(i as nat) as int),
            (q * d_val + u256_val(r_hi, r_lo)) * (pow2((128 - i) as nat) as int)
                + (n0 as int % (pow2((128 - i) as nat) as int)) == n_val,
        decreases 128 - i,
    {
        let ghost i0 = i as nat;
        let ghost qo = q;
        let ghost rv: int = u256_val(r_hi, r_lo);
        let ghost rest: int = n0 as int % (pow2((128 - i0) as nat) as int);
        let ghost rest2: int = n0 as int % (pow2((127 - i0) as nat) as int);
        let ghost v: int = q * d_val + rv;
        proof {
            lemma_pow2_pos(128);
            lemma_shift_register_step(n0 as int, i0, cur as int);
            if i0 < 127 {
                vstd::arithmetic::power2::lemma_pow2_strictly_increases(i0, 127);
            }
            assert(q < 0x8000_0000_0000_0000_0000_0000_0000_0000);
        }
        let bit = cur / 0x8000_0000_0000_0000_0000_0000_0000_0000u128;
        proof {
            assert(bit == rest / (pow2((127 - i0) as nat) as int));
            assert(bit <= 1);
            assert(rest == bit * (pow2((127 - i0) as nat) as int) + rest2);
            assert(((cur % 0x8000_0000_0000_0000_0000_0000_0000_0000u128) * 2) as int == rest2 * (pow2((i0 + 1) as nat) as int));
        }
        cur = (cur % 0x8000_0000_0000_0000_0000_0000_0000_0000u128) * 2;
        // rr = 2 * r + bit, as a pair
        let rr_hi = r_hi * 2 + r_lo / 0x8000_0000_0000_0000_0000_0000_0000_0000u128;
        let rr_lo = (r_lo % 0x8000_0000_0000_0000_0000_0000_0000_0000u128) * 2 + bit;
        proof {
            assert(u256_val(rr_hi, rr_lo) == 2 * rv + bit);
            assert(2 * rv + bit < 2 * d_val);
        }
        // one quotient bit: subtract the divisor when it fits
        if rr_hi > d1 || (rr_hi == d1 && rr_lo >= d0) {
            proof {
                assert(u256_val(rr_hi, rr_lo) >= d_val);
            }
            if rr_lo >= d0 {
                r_hi = rr_hi - d1;
                r_lo = rr_lo - d0;
            } else {
                r_hi = rr_hi - d1 - 1;
                r_lo = rr_lo + (0xffff_ffff_ffff_ffff_ffff_ffff_ffff_ffffu128 - d0) + 1;
            }
            q = q * 2 + 1;
            proof {
                assert(u256_val(r_hi, r_lo) == 2 * rv + bit - d_val);
                assert(q * d_val == 2 * (qo * d_val) + d_val) by (nonlinear_arith)
                    requires
                        q == 2 * qo + 1,
                ;
                assert(q * d_val + u256_val(r_hi, r_lo) == 2 * v + bit);
            }
        } else {
            proof {
                assert(u256_val(rr_hi, rr_lo) < d_val);
            }
            r_hi = rr_hi;
            r_lo = rr_lo;
            q = q * 2;
            proof {
                assert(q * d_val == 2 * (qo * d_val)) by (nonlinear_arith)
                    requires
                        q == 2 * qo,
                ;
                assert(q * d_val + u256_val(r_hi, r_lo) == 2 * v + bit);
            }
        }
        i = i + 1;
        proof {
            lemma2_to64();
            lemma_pow2_adds(i0, 1);
            lemma_pow2_adds((127 - i0) as nat, 1);
            let pl: int = pow2((128 - i) as nat) as int;
            let vp: int = 2 * v + bit;
            assert(vp * pl == v * (2 * pl) + bit * pl) by (nonlinear_arith)
                requires
                    vp == 2 * v + bit,
            ;
            assert(2 * pl == pow2((128 - i0) as nat) as int);
            assert(v * (pow2((128 - i0) as nat) as int) + rest == n_val);
            assert(vp * pl + rest2 == n_val);
            assert((q * d_val + u256_val(r_hi, r_lo)) * pl + rest2 == n_val);
            assert(q < pow2(i as nat));
        }
    }
    proof {
        lemma2_to64();
        assert(pow2(0) == 1);
        assert(n0 as int % 1int == 0);
        assert((q * d_val + u256_val(r_hi, r_lo)) * 1 == q * d_val + u256_val(r_hi, r_lo))
            by (nonlinear_arith);
    }
    (q, r_hi, r_lo)
}

/// `a * b / d` rounded down, as the flooring division of the exact 256-bit
/// product; fails with `MathOverflow` when the quotient does not fit in 128
/// bits.
pub fn mul_div_floor(a: u128, b: u128, d: u128) -> (r: Result<u128, LiquidityError>)
    requires
        d > 0,
    ensures
        match r {
            Ok(q) => q == (a * b) / (d as int),
            Err(e) => e == LiquidityError::MathOverflow
                && (a * b) / (d as int) >= 0x1_0000_0000_0000_0000_0000_0000_0000_0000,
        },
{
    let (hi, lo) = mul_u128(a, b);
    if hi >= d {
        proof {
            lemma_div_overflow(a, b, d, hi, lo);
        }
        Err(LiquidityError::MathOverflow)
    } else {
        let (q, rem) = div_u256_u128(hi, lo, d);
        proof {
            lemma_div_exact_fit(a, b, d, q, rem);
        }
        Ok(q)
    }
}

/// `a * b / d` rounded up; fails with `MathOverflow` when the rounded-up
/// quotient does not fit in 128 bits.
pub fn mul_div_ceil(a: u128, b: u128, d: u128) -> (r: Result<u128, LiquidityError>)
    requires
        d > 0,
    ensures
        match r {
            Ok(q) => q == (a * b + d - 1) / (d as int),
            Err(e) => e == LiquidityError::MathOverflow
                && (a * b + d - 1) / (d as int) >= 0x1_0000_0000_0000_0000_0000_0000_0000_0000,
        },
{
    let (hi, lo) = mul_u128(a, b);
    if hi >= d {
        proof {
            lemma_div_overflow(a, b, d, hi, lo);
            lemma_div_le_ceil(a, b, d);
        }
        Err(LiquidityError::MathOverflow)
    } else {
        let (q, rem) = div_u256_u128(hi, lo, d);
        proof {
            lemma_div_exact_fit(a, b, d, q, rem);
            lemma_ceil_of_floor(a, b, d, q, rem);
        }
        if rem == 0 {
            Ok(q)
        } else if q == 0xffff_ffff_ffff_ffff_ffff_ffff_ffff_ffff {
            Err(LiquidityError::MathOverflow)
        } else {
            Ok(q + 1)
        }
    }
}

proof fn lemma_div_overflow(a: u128, b: u128, d: u128, hi: u128, lo: u128)
    requires
        d > 0,
        hi >= d,
        u256_val(hi, lo) == a * b,
    ensures
        (a * b) / (d as int) >= 0x1_0000_0000_0000_0000_0000_0000_0000_0000,
{
    assert((a * b) / (d as int) >= 0x1_0000_0000_0000_0000_0000_0000_0000_0000)
        by (nonlinear_arith)
        requires
            d > 0,
            hi >= d,
            a * b == hi * 0x1_0000_0000_0000_0000_0000_0000_0000_0000 + lo,
            lo >= 0,
    ;
}

proof fn lemma_div_exact_fit(a: u128, b: u128, d: u128, q: u128, rem: u128)
    requires
        d > 0,
        q * d + rem == a * b,
        rem < d,
    ensures
        q == (a * b) / (d as int),
{
    assert(q == (a * b) / (d as int)) by (nonlinear_arith)
        requires
            d > 0,
            q * d + rem == a * b,
            0 <= rem < d,
            q >= 0,
    ;
}

proof fn lemma_div_le_ceil(a: u128, b: u128, d: u128)
    requires
        d > 0,
    ensures
        (a * b) / (d as int) <= (a * b + d - 1) / (d as int),
{
    assert((a * b) / (d as int) <= (a * b + d - 1) / (d as int)) by (nonlinear_arith)
        requires
            d > 0,
            a * b >= 0,
    ;
}

proof fn lemma_ceil_of_floor(a: u128, b: u128, d: u128, q: u128, rem: u128)
    requires
        d > 0,
        q * d + rem == a * b,
        rem < d,
    ensures
        rem == 0 ==> (a * b + d - 1) / (d as int) == q,
        rem != 0 ==> (a * b + d - 1) / (d as int) == q + 1,
{
    assert((rem == 0 ==> (a * b + d - 1) / (d as int) == q)
        && (rem != 0 ==> (a * b + d - 1) / (d as int) == q + 1))
        by (nonlinear_arith)
        requires
            d > 0,
            q * d + rem == a * b,
            0 <= rem < d,
            q >= 0,
    ;
}


/// `floor(a * diff * 2^64 / (c * d))`, computed exactly through a 320-bit
/// intermediate by dividing by `d`, shifting the remainder, and dividing by
/// `c`; also reports whether the division left no remainder. `diff < d`
/// keeps every partial quotient within 128 bits. Fails with `MathOverflow`
/// when the quotient does not fit in 128 bits.
pub fn mul_q64_div_prod(a: u128, diff: u128, c: u128, d: u128) -> (r: Result<
    (u128, bool),
    LiquidityError,
>)
    requires
        c >= 1,
        d >= 1,
        diff < d,
    ensures
        match r {
            Ok(res) => res.0 == (a * diff * 0x1_0000_0000_0000_0000) / (c * d) && (res.1 <==> (a
                * diff * 0x1_0000_0000_0000_0000) % (c * d) == 0),
            Err(e) => e == LiquidityError::MathOverflow && (a * diff
                * 0x1_0000_0000_0000_0000) / (c * d)
                >= 0x1_0000_0000_0000_0000_0000_0000_0000_0000,
        },
{
    let q64: u128 = 0x1_0000_0000_0000_0000;
    let (x_hi, x_lo) = mul_u128(a, diff);
    proof {
        assert(x_hi < d) by (nonlinear_arith)
            requires
                x_hi * 0x1_0000_0000_0000_0000_0000_0000_0000_0000 + x_lo == a * diff,
                0 <= x_lo,
                a < 0x1_0000_0000_0000_0000_0000_0000_0000_0000,
                0 <= diff < d,
        ;
    }
    let (q1, r1) = div_u256_u128(x_hi, x_lo, d);
    let (m_hi, m_lo) = mul_u128(r1, q64);
    proof {
        assert(m_hi < d) by (nonlinear_arith)
            requires
                m_hi * 0x1_0000_0000_0000_0000_0000_0000_0000_0000 + m_lo == r1
                    * 0x1_0000_0000_0000_0000,
                0 <= m_lo,
                0 <= r1 < d,
        ;
    }
    let (t, rt) = div_u256_u128(m_hi, m_lo, d);
    proof {
        assert(t < 0x1_0000_0000_0000_0000) by (nonlinear_arith)
            requires
                t * d + rt == r1 * 0x1_0000_0000_0000_0000,
                0 <= rt,
                0 <= r1 < d,
                d >= 1,
                t >= 0,
        ;
    }
    // z == q1 * 2^64 + t == floor(a * diff * 2^64 / d)
    let z_hi = q1 / q64;
    let z_lo = (q1 % q64) * q64 + t;
    proof {
        lemma_q64_shift_value(q1, t, z_hi, z_lo);
        assert((q1 * 0x1_0000_0000_0000_0000 + t) * d + rt == (a * diff)
            * 0x1_0000_0000_0000_0000) by (nonlinear_arith)
            requires
                q1 * d + r1 == a * diff,
                t * d + rt == r1 * 0x1_0000_0000_0000_0000,
        ;
    }
    if z_hi >= c {
        proof {
            lemma_chained_div_overflow(a, diff, c, d, q1, t, rt, z_hi, z_lo);
        }
        return Err(LiquidityError::MathOverflow);
    }
    let (q, rb) = div_u256_u128(z_hi, z_lo, c);
    proof {
        lemma_chained_div_exact(a, diff, c, d, q1, t, rt, q, rb);
        assert(rb * d + rt == 0 <==> (rb == 0 && rt == 0)) by (nonlinear_arith)
            requires
                d >= 1,
                rb >= 0,
                rt >= 0,
        ;
    }
    Ok((q, rb == 0 && rt == 0))
}

/// Splitting `q1 * 2^64 + t` into 128-bit halves.
proof fn lemma_q64_shift_value(q1: u128, t: u128, z_hi: u128, z_lo: u128)
    requires
        t < 0x1_0000_0000_0000_0000,
        z_hi == q1 / 0x1_0000_0000_0000_0000,
        z_lo == (q1 % 0x1_0000_0000_0000_0000) * 0x1_0000_0000_0000_0000 + t,
    ensures
        z_hi * 0x1_0000_0000_0000_0000_0000_0000_0000_0000 + z_lo == q1
            * 0x1_0000_0000_0000_0000 + t,
{
}

/// A high half at or above the divisor makes the chained quotient exceed
/// 128 bits.
proof fn lemma_chained_div_overflow(
    a: u128,
    diff: u128,
    c: u128,
    d: u128,
    q1: u128,
    t: u128,
    rt: u128,
    z_hi: u128,
    z_lo: u128,
)
    requires
        c >= 1,
        d >= 1,
        rt < d,
        (q1 * 0x1_0000_0000_0000_0000 + t) * d + rt == (a * diff) * 0x1_0000_0000_0000_0000,
        z_hi * 0x1_0000_0000_0000_0000_0000_0000_0000_0000 + z_lo == q1
            * 0x1_0000_0000_0000_0000 + t,
        z_lo >= 0,
        z_hi >= c,
    ensures
        (a * diff * 0x1_0000_0000_0000_0000) / (c * d)
            >= 0x1_0000_0000_0000_0000_0000_0000_0000_0000,
{
    let w: int = 0x1_0000_0000_0000_0000_0000_0000_0000_0000int;
    let z: int = q1 * 0x1_0000_0000_0000_0000 + t;
    let y: int = a * diff * 0x1_0000_0000_0000_0000;
    assert(y == (a * diff) * 0x1_0000_0000_0000_0000) by (nonlinear_arith)
        requires
            y == a * diff * 0x1_0000_0000_0000_0000,
    ;
    assert(y >= (c * w) * d) by (nonlinear_arith)
        requires
            z * d + rt == y,
            rt >= 0,
            z >= c * w,
            d >= 1,
            c >= 1,
    ;
    assert(y / (c * d) >= w) by (nonlinear_arith)
        requires
            y >= (c * w) * d,
            c >= 1,
            d >= 1,
            w >= 1,
    ;
}

/// The two chained divisions compute the quotient and remainder of the
/// full product division.
proof fn lemma_chained_div_exact(
    a: u128,
    diff: u128,
    c: u128,
    d: u128,
    q1: u128,
    t: u128,
    rt: u128,
    q: u128,
    rb: u128,
)
    requires
        c >= 1,
        d >= 1,
        rt < d,
        rb < c,
        (q1 * 0x1_0000_0000_0000_0000 + t) * d + rt == (a * diff) * 0x1_0000_0000_0000_0000,
        q * c + rb == q1 * 0x1_0000_0000_0000_0000 + t,
    ensures
        q == (a * diff * 0x1_0000_0000_0000_0000) / (c * d),
        (a * diff * 0x1_0000_0000_0000_0000) % (c * d) == rb * d + rt,
{
    let y: int = a * diff * 0x1_0000_0000_0000_0000;
    assert(y == (a * diff) * 0x1_0000_0000_0000_0000) by (nonlinear_arith)
        requires
            y == a * diff * 0x1_0000_0000_0000_0000,
    ;
    let z: int = q1 * 0x1_0000_0000_0000_0000 + t;
    assert(y == q * (c * d) + (rb * d + rt)) by (nonlinear_arith)
        requires
            z * d + rt == y,
            q * c + rb == z,
    ;
    assert(0 <= rb * d + rt < c * d) by (nonlinear_arith)
        requires
            0 <= rb < c,
            0 <= rt < d,
    ;
    assert(q == y / (c * d) && y % (c * d) == rb * d + rt) by (nonlinear_arith)
        requires
            y == q * (c * d) + (rb * d + rt),
            0 <= rb * d + rt < c * d,
            q >= 0,
            c * d >= 1,
    ;
}

} // verus!
