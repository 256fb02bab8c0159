//! Fixed-point natural logarithm, used by the scorer's inverse document
//! frequency.
//!
//! Scores in this crate are integers in millionths. `ln_micro(num, den)`
//! approximates `1_000_000 * ln(num/den)`: the quotient is brought to a
//! binary fixed-point form, its base-two logarithm is extracted bit by bit
//! by repeated squaring (16 fraction bits), and the result is rescaled by
//! `ln 2`. The key arithmetic facts — the result is zero when `num == den`,
//! non-negative exactly when `num >= den` — are proved below and carry the
//! sign conventions of the ranking engine.

use vstd::prelude::*;
use vstd::arithmetic::div_mod::{
    lemma_div_is_ordered, lemma_div_multiples_vanish, lemma_div_pos_is_pos,
    lemma_multiply_divide_lt,
};
use vstd::arithmetic::mul::{lemma_mul_inequality, lemma_mul_strict_upper_bound};
use vstd::arithmetic::power2::{lemma2_to64, lemma2_to64_rest, lemma_pow2_adds, lemma_pow2_pos, pow2};

verus! {

/// One million: the fixed-point scale of every score in the crate.
pub const SCALE: u64 = 1_000_000;

/// Repeated doubling until the value reaches `2^32`; the second component
/// counts the doublings.
pub open spec fn spec_norm_up(m: int) -> (int, int)
    decreases (if m < 0x1_0000_0000 { 0x1_0000_0000 - m } else { 0int }),
{
    if 1 <= m < 0x1_0000_0000 {
        let r = spec_norm_up(2 * m);
        (r.0, r.1 + 1)
    } else {
        (m, 0)
    }
}

/// Repeated halving until the value drops below `2^33`; the second
/// component counts the halvings.
pub open spec fn spec_norm_down(m: int) -> (int, int)
    decreases m,
{
    if m >= 0x2_0000_0000 {
        let r = spec_norm_down(m / 2);
        (r.0, r.1 + 1)
    } else {
        (m, 0)
    }
}

/// Extract `i` bits of the base-two logarithm's fraction from a value in
/// `[2^32, 2^33)` by repeated squaring, most significant bit first,
/// accumulating them in `f`.
pub open spec fn spec_frac16(m: int, i: nat, f: int) -> (int, int)
    decreases i,
{
    if i == 0 {
        (m, f)
    } else {
        let sq = (m * m) / 0x1_0000_0000;
        if sq >= 0x2_0000_0000 {
            spec_frac16(sq / 2, (i - 1) as nat, 2 * f + 1)
        } else {
            spec_frac16(sq, (i - 1) as nat, 2 * f)
        }
    }
}

/// The base-two logarithm of `g / 2^32`, in fixed point with 16 fraction
/// bits.
pub open spec fn spec_log2_fp(g: int) -> int {
    if g < 0x1_0000_0000 {
        let n = spec_norm_up(g);
        -n.1 * 0x10000 + spec_frac16(n.0, 16, 0).1
    } else {
        let n = spec_norm_down(g);
        n.1 * 0x10000 + spec_frac16(n.0, 16, 0).1
    }
}

/// What `ln_micro` computes.
pub open spec fn spec_ln_micro(num: int, den: int) -> int {
    let g0 = (num * 0x1_0000_0000) / den;
    let g = if g0 == 0 {
        1
    } else {
        g0
    };
    let lg = spec_log2_fp(g);
    if lg >= 0 {
        (lg * 693_147) / 0x10000
    } else {
        -((-lg * 693_147) / 0x10000)
    }
}

proof fn lemma_norm_up_props(m: int)
    requires
        1 <= m < 0x2_0000_0000,
    ensures
        0x1_0000_0000 <= spec_norm_up(m).0 < 0x2_0000_0000,
        spec_norm_up(m).0 == m * pow2(spec_norm_up(m).1 as nat),
        0 <= spec_norm_up(m).1 <= 32,
        m < 0x1_0000_0000 ==> spec_norm_up(m).1 >= 1,
    decreases (if m < 0x1_0000_0000 { 0x1_0000_0000 - m } else { 0int }),
{
    lemma2_to64();
    if 1 <= m < 0x1_0000_0000 {
        lemma_norm_up_props(2 * m);
        let r = spec_norm_up(2 * m);
        assert(r.0 == (2 * m) * pow2(r.1 as nat));
        lemma_pow2_adds(1, r.1 as nat);
        assert(pow2(1) == 2);
        assert((r.1 + 1) as nat == 1 + r.1 as nat);
        assert(pow2((r.1 + 1) as nat) == 2 * pow2(r.1 as nat));
        assert((2 * m) * pow2(r.1 as nat) == m * (2 * pow2(r.1 as nat))) by (nonlinear_arith);
        assert(spec_norm_up(m).0 == m * pow2(spec_norm_up(m).1 as nat));
        // The step bound: m * pow2(s) < 2^33 and m >= 1 forces pow2(s) < 2^33.
        let s = spec_norm_up(m).1;
        if s > 32 {
            lemma_pow2_pos(s as nat);
            if s > 33 {
                vstd::arithmetic::power2::lemma_pow2_strictly_increases(33, s as nat);
            }
            assert(pow2(33) == 0x2_0000_0000) by {
                lemma_pow2_adds(32, 1);
            }
            assert(pow2(s as nat) >= 0x2_0000_0000);
            lemma_mul_inequality(1, m, pow2(s as nat) as int);
            assert(false);
        }
    } else {
        assert(pow2(0) == 1);
        assert(m * pow2(0) == m) by (nonlinear_arith)
            requires
                pow2(0) == 1,
        ;
    }
}

proof fn lemma_norm_down_props(m: int)
    requires
        0x1_0000_0000 <= m,
    ensures
        0x1_0000_0000 <= spec_norm_down(m).0 < 0x2_0000_0000,
        spec_norm_down(m).1 >= 0,
        spec_norm_down(m).0 * pow2(spec_norm_down(m).1 as nat) <= m,
    decreases m,
{
    if m >= 0x2_0000_0000 {
        lemma_div_is_ordered(0x2_0000_0000, m, 2);
        lemma_norm_down_props(m / 2);
        let r = spec_norm_down(m / 2);
        lemma_pow2_adds(r.1 as nat, 1);
        lemma2_to64();
        assert(r.0 * (pow2(r.1 as nat) * 2) == (r.0 * pow2(r.1 as nat)) * 2)
            by (nonlinear_arith);
        assert((m / 2) * 2 <= m);
    } else {
        lemma2_to64();
        assert(spec_norm_down(m).0 * 1 == spec_norm_down(m).0);
    }
}

/// One squaring step stays within range.
proof fn lemma_frac_step(m: int)
    requires
        0x1_0000_0000 <= m < 0x2_0000_0000,
    ensures
        0x1_0000_0000 <= (m * m) / 0x1_0000_0000 < 0x4_0000_0000,
{
    let sq = (m * m) / 0x1_0000_0000;
    lemma_mul_inequality(0x1_0000_0000, m, m);
    lemma_mul_inequality(0x1_0000_0000, 0x1_0000_0000, m);
    assert(m * m >= 0x1_0000_0000_0000_0000);
    lemma_div_is_ordered(0x1_0000_0000_0000_0000, m * m, 0x1_0000_0000);
    lemma_div_multiples_vanish(0x1_0000_0000, 0x1_0000_0000);
    lemma_mul_strict_upper_bound(m, 0x2_0000_0000, m, 0x2_0000_0000);
    lemma_multiply_divide_lt(m * m, 0x1_0000_0000, 0x4_0000_0000);
}

proof fn lemma_frac16_props(m: int, i: nat, f: int)
    requires
        0x1_0000_0000 <= m < 0x2_0000_0000,
        f >= 0,
    ensures
        0x1_0000_0000 <= spec_frac16(m, i, f).0 < 0x2_0000_0000,
        f * pow2(i) <= spec_frac16(m, i, f).1 < (f + 1) * pow2(i),
    decreases i,
{
    if i == 0 {
        lemma2_to64();
        assert(f * 1 == f && (f + 1) * 1 == f + 1);
    } else {
        lemma_frac_step(m);
        let sq = (m * m) / 0x1_0000_0000;
        lemma_pow2_adds(1, (i - 1) as nat);
        lemma2_to64();
        if sq >= 0x2_0000_0000 {
            lemma_frac16_props(sq / 2, (i - 1) as nat, 2 * f + 1);
            assert((2 * f + 1) * pow2((i - 1) as nat) >= f * (2 * pow2((i - 1) as nat)))
                by (nonlinear_arith)
                requires
                    f >= 0,
                    pow2((i - 1) as nat) >= 0,
            ;
            assert((2 * f + 2) * pow2((i - 1) as nat) == (f + 1) * (2 * pow2((i - 1) as nat)))
                by (nonlinear_arith);
        } else {
            lemma_frac16_props(sq, (i - 1) as nat, 2 * f);
            assert((2 * f) * pow2((i - 1) as nat) == f * (2 * pow2((i - 1) as nat)))
                by (nonlinear_arith);
            assert((2 * f + 1) * pow2((i - 1) as nat) <= (f + 1) * (2 * pow2((i - 1) as nat)))
                by (nonlinear_arith)
                requires
                    f >= 0,
                    pow2((i - 1) as nat) >= 0,
            ;
        }
    }
}

fn norm_up(m: u128) -> (r: (u128, u32))
    requires
        1 <= m < 0x2_0000_0000,
    ensures
        r.0 as int == spec_norm_up(m as int).0,
        r.1 as int == spec_norm_up(m as int).1,
    decreases (if m < 0x1_0000_0000 { 0x1_0000_0000 - m as int } else { 0int }),
{
    proof {
        lemma_norm_up_props(m as int);
    }
    if m < 0x1_0000_0000 {
        let r = norm_up(2 * m);
        proof {
            lemma_norm_up_props(2 * m as int);
        }
        (r.0, r.1 + 1)
    } else {
        (m, 0)
    }
}

fn norm_down(m: u128) -> (r: (u128, u32))
    requires
        0x1_0000_0000 <= m,
    ensures
        r.0 as int == spec_norm_down(m as int).0,
        r.1 as int == spec_norm_down(m as int).1,
    decreases m,
{
    proof {
        lemma_norm_down_props(m as int);
    }
    if m >= 0x2_0000_0000 {
        proof {
            lemma_div_is_ordered(0x2_0000_0000, m as int, 2);
        }
        let r = norm_down(m / 2);
        proof {
            lemma_norm_down_props(m as int / 2);
            // The halving count is bounded because the normalized value,
            // scaled back up, stays below 2^128.
            let rr = spec_norm_down(m as int / 2);
            lemma_pow2_pos(rr.1 as nat);
            if rr.1 + 1 > u32::MAX as int {
                assert(false) by {
                    lemma_norm_down_bound(m as int);
                }
            }
        }
        (r.0, r.1 + 1)
    } else {
        (m, 0)
    }
}

/// The halving count of any value below 2^128 is at most 95.
proof fn lemma_norm_down_bound(m: int)
    requires
        0x1_0000_0000 <= m < 0x1_0000_0000_0000_0000_0000_0000_0000_0000,
    ensures
        spec_norm_down(m).1 <= 95,
{
    lemma_norm_down_props(m);
    let r = spec_norm_down(m);
    if r.1 > 95 {
        lemma2_to64();
        lemma2_to64_rest();
        assert(pow2(96) == 0x1_0000_0000_0000_0000_0000_0000) by {
            lemma_pow2_adds(64, 32);
        }
        if r.1 > 96 {
            vstd::arithmetic::power2::lemma_pow2_strictly_increases(96, r.1 as nat);
        }
        assert(pow2(r.1 as nat) >= 0x1_0000_0000_0000_0000_0000_0000);
        lemma_mul_inequality(0x1_0000_0000, r.0, pow2(r.1 as nat) as int);
        assert(0x1_0000_0000 * pow2(r.1 as nat) >= 0x1_0000_0000_0000_0000_0000_0000_0000_0000)
            by (nonlinear_arith)
            requires
                pow2(r.1 as nat) >= 0x1_0000_0000_0000_0000_0000_0000,
        ;
        assert(r.0 * pow2(r.1 as nat) >= 0x1_0000_0000 * pow2(r.1 as nat)) by (nonlinear_arith)
            requires
                r.0 >= 0x1_0000_0000,
                pow2(r.1 as nat) > 0,
        ;
        assert(false);
    }
}

fn frac16(m: u128, i: u32, f: u64) -> (r: (u128, u64))
    requires
        0x1_0000_0000 <= m < 0x2_0000_0000,
        i <= 16,
        (f as int) < pow2((16 - i) as nat),
    ensures
        r.0 as int == spec_frac16(m as int, i as nat, f as int).0,
        r.1 as int == spec_frac16(m as int, i as nat, f as int).1,
    decreases i,
{
    if i == 0 {
        (m, f)
    } else {
        proof {
            lemma_frac_step(m as int);
            lemma_pow2_adds((16 - i) as nat, 1);
            lemma2_to64();
            assert(pow2((16 - (i - 1)) as nat) == pow2((16 - i) as nat) * 2);
        }
        let sq = (m * m) / 0x1_0000_0000;
        if sq >= 0x2_0000_0000 {
            frac16(sq / 2, i - 1, 2 * f + 1)
        } else {
            frac16(sq, i - 1, 2 * f)
        }
    }
}

/// `1_000_000 * ln(num/den)` in fixed point. Zero exactly on a quotient of
/// one; see `lemma_ln_micro_sign`.
pub fn ln_micro(num: u128, den: u128) -> (r: i64)
    requires
        1 <= num < 0x1_0000_0000_0000_0000_0000_0000,
        1 <= den,
    ensures
        r as int == spec_ln_micro(num as int, den as int),
{
    let g0 = (num * 0x1_0000_0000) / den;
    let g = if g0 == 0 {
        1
    } else {
        g0
    };
    let lg: i64 = if g < 0x1_0000_0000 {
        let n = norm_up(g);
        proof {
            lemma_norm_up_props(g as int);
        }
        proof {
            lemma2_to64();
        }
        let fr = frac16(n.0, 16, 0);
        proof {
            lemma_frac16_props(spec_norm_up(g as int).0, 16, 0);
        }
        -(n.1 as i64) * 0x10000 + fr.1 as i64
    } else {
        let n = norm_down(g);
        proof {
            lemma_norm_down_props(g as int);
            lemma_norm_down_bound(g as int);
        }
        proof {
            lemma2_to64();
        }
        let fr = frac16(n.0, 16, 0);
        proof {
            lemma_frac16_props(spec_norm_down(g as int).0, 16, 0);
        }
        (n.1 as i64) * 0x10000 + fr.1 as i64
    };
    if lg >= 0 {
        (lg * 693_147) / 0x10000
    } else {
        -((-lg * 693_147) / 0x10000)
    }
}

/// The sign of the fixed-point logarithm matches the sign of `ln`: it is
/// zero on a quotient of one, non-negative exactly when `num >= den`.
pub proof fn lemma_ln_micro_sign(num: int, den: int)
    requires
        1 <= num < 0x1_0000_0000_0000_0000_0000_0000,
        1 <= den,
    ensures
        num >= den ==> spec_ln_micro(num, den) >= 0,
        num < den ==> spec_ln_micro(num, den) < 0,
        num == den ==> spec_ln_micro(num, den) == 0,
{
    let g0 = (num * 0x1_0000_0000) / den;
    let g = if g0 == 0 {
        1int
    } else {
        g0
    };
    if num >= den {
        // g0 >= 2^32, so the logarithm's integer part is non-negative.
        lemma_mul_inequality(den, num, 0x1_0000_0000);
        lemma_div_is_ordered(den * 0x1_0000_0000, num * 0x1_0000_0000, den);
        lemma_div_multiples_vanish(0x1_0000_0000, den);
        assert(g0 >= 0x1_0000_0000);
        lemma_norm_down_props(g);
        lemma_frac16_props(spec_norm_down(g).0, 16, 0);
        let lg = spec_log2_fp(g);
        assert(lg >= 0) by (nonlinear_arith)
            requires
                lg == spec_norm_down(g).1 * 0x10000 + spec_frac16(
                    spec_norm_down(g).0,
                    16,
                    0,
                ).1,
                spec_norm_down(g).1 >= 0,
                spec_frac16(spec_norm_down(g).0, 16, 0).1 >= 0,
        ;
        lemma_div_pos_is_pos(lg * 693_147, 0x10000);
        assert(lg * 693_147 >= 0) by (nonlinear_arith)
            requires
                lg >= 0,
        ;
        if num == den {
            // The quotient is exactly one: every squaring returns 2^32 and
            // every fraction bit is zero.
            assert(num * 0x1_0000_0000 == 0x1_0000_0000 * num) by (nonlinear_arith);
            lemma_div_multiples_vanish(0x1_0000_0000, num);
            assert(g0 == 0x1_0000_0000);
            assert(spec_norm_down(0x1_0000_0000).1 == 0);
            assert(spec_norm_down(0x1_0000_0000).0 == 0x1_0000_0000);
            lemma_frac16_one(16, 0);
            assert(spec_log2_fp(g) == 0);
        }
    } else {
        // g0 < 2^32, so at least one doubling happens and the integer part
        // is at most -1.
        assert(num * 0x1_0000_0000 < den * 0x1_0000_0000) by (nonlinear_arith)
            requires
                num < den,
        ;
        lemma_multiply_divide_lt(num * 0x1_0000_0000, den, 0x1_0000_0000);
        assert(g0 < 0x1_0000_0000);
        assert(g < 0x1_0000_0000);
        assert(g >= 1) by {
            if g0 != 0 {
                lemma_div_pos_is_pos(num * 0x1_0000_0000, den);
            }
        }
        lemma_norm_up_props(g);
        lemma_frac16_props(spec_norm_up(g).0, 16, 0);
        lemma2_to64();
        let s = spec_norm_up(g).1;
        let fv = spec_frac16(spec_norm_up(g).0, 16, 0).1;
        let lg = spec_log2_fp(g);
        assert(fv < 0x10000);
        assert(lg == -s * 0x10000 + fv);
        assert(lg <= -1) by (nonlinear_arith)
            requires
                lg == -s * 0x10000 + fv,
                s >= 1,
                fv < 0x10000,
        ;
        assert(-lg >= 1);
        assert(-lg * 693_147 >= 693_147) by (nonlinear_arith)
            requires
                -lg >= 1,
        ;
        lemma_div_is_ordered(693_147, -lg * 693_147, 0x10000);
        assert(693_147int / 0x10000 == 10);
        assert((-lg * 693_147) / 0x10000 >= 10);
    }
}

/// The fixed-point logarithm of any representable quotient is small: its
/// magnitude stays below `2^31` millionths.
pub proof fn lemma_ln_micro_bound(num: int, den: int)
    requires
        1 <= num < 0x1_0000_0000_0000_0000_0000_0000,
        1 <= den,
    ensures
        -0x8000_0000 <= spec_ln_micro(num, den) <= 0x8000_0000,
{
    let g0 = (num * 0x1_0000_0000) / den;
    let g = if g0 == 0 {
        1int
    } else {
        g0
    };
    let cap: int = (0x1_0000_0000_0000_0000_0000_0000 as int) * (0x1_0000_0000 as int);
    assert(den * cap >= cap) by (nonlinear_arith)
        requires
            den >= 1,
            cap > 0,
    ;
    lemma_multiply_divide_lt(num * 0x1_0000_0000, den, cap);
    assert(g0 >= 0) by {
        vstd::arithmetic::div_mod::lemma_div_pos_is_pos(num * 0x1_0000_0000, den);
    }
    assert(1 <= g < cap);
    let lg = spec_log2_fp(g);
    if g < 0x1_0000_0000 {
        lemma_norm_up_props(g);
        lemma_frac16_props(spec_norm_up(g).0, 16, 0);
        lemma2_to64();
        let s = spec_norm_up(g).1;
        let fv = spec_frac16(spec_norm_up(g).0, 16, 0).1;
        assert(0 <= fv < 0x10000);
        assert(-s * 0x10000 >= -0x20_0000) by (nonlinear_arith)
            requires
                0 <= s <= 32,
        ;
        assert(-s * 0x10000 <= 0);
        assert(-0x20_0000 <= lg < 0x10000);
    } else {
        lemma_norm_down_props(g);
        lemma_norm_down_bound(g);
        lemma_frac16_props(spec_norm_down(g).0, 16, 0);
        lemma2_to64();
        let s = spec_norm_down(g).1;
        let fv = spec_frac16(spec_norm_down(g).0, 16, 0).1;
        assert(0 <= fv < 0x10000);
        assert(0 <= s * 0x10000 <= 95 * 0x10000) by (nonlinear_arith)
            requires
                0 <= s <= 95,
        ;
        assert(0 <= lg <= 0x60_0000);
    }
    assert(-0x60_0000 <= lg <= 0x60_0000);
    if lg >= 0 {
        lemma_mul_inequality(lg, 0x60_0000, 693_147);
        lemma_div_is_ordered(lg * 693_147, (0x60_0000 as int) * 693_147, 0x10000);
        assert(((0x60_0000 as int) * 693_147) / 0x10000 < 0x8000_0000);
        assert(lg * 693_147 >= 0) by (nonlinear_arith)
            requires
                lg >= 0,
        ;
        lemma_div_pos_is_pos(lg * 693_147, 0x10000);
    } else {
        lemma_mul_inequality(-lg, 0x60_0000, 693_147);
        lemma_div_is_ordered(-lg * 693_147, (0x60_0000 as int) * 693_147, 0x10000);
        assert(((0x60_0000 as int) * 693_147) / 0x10000 < 0x8000_0000);
        assert(-lg * 693_147 >= 0) by (nonlinear_arith)
            requires
                lg < 0,
        ;
        lemma_div_pos_is_pos(-lg * 693_147, 0x10000);
    }
}

/// Squaring the exact value one yields one: all fraction bits are zero.
proof fn lemma_frac16_one(i: nat, f: int)
    requires
        f >= 0,
    ensures
        spec_frac16(0x1_0000_0000, i, f).1 == f * pow2(i),
    decreases i,
{
    if i == 0 {
        lemma2_to64();
        assert(f * 1 == f);
    } else {
        assert(0x1_0000_0000 * 0x1_0000_0000 == 0x1_0000_0000_0000_0000) by (nonlinear_arith);
        lemma_div_multiples_vanish(0x1_0000_0000, 0x1_0000_0000);
        assert((0x1_0000_0000_0000_0000int) / 0x1_0000_0000 == 0x1_0000_0000);
        lemma_frac16_one((i - 1) as nat, 2 * f);
        lemma_pow2_adds(1, (i - 1) as nat);
        lemma2_to64();
        assert((2 * f) * pow2((i - 1) as nat) == f * (2 * pow2((i - 1) as nat)))
            by (nonlinear_arith);
    }
}

} // verus!
