//! Fixed-point arithmetic helpers.
//!
//! Every ratio in the protocol is a WAD (10^18) fixed-point value, and the
//! protocol formulas all have the shape `a * b / d`. The product of two
//! 128-bit amounts does not fit in 128 bits, so `mul_div_floor` and
//! `mul_div_ceil` compute the product in two 128-bit words and divide that
//! 256-bit value exactly, reporting `None` only when the quotient itself does
//! not fit (or the divisor is zero).

use vstd::arithmetic::div_mod::{
    lemma_basic_div, lemma_div_basics, lemma_div_is_ordered, lemma_fundamental_div_mod,
    lemma_fundamental_div_mod_converse, lemma_multiply_divide_lt, lemma_small_mod,
};
use vstd::arithmetic::power2::{
    lemma2_to64, lemma2_to64_rest, lemma_pow2_adds, lemma_pow2_pos, lemma_pow2_strictly_increases,
    pow2,
};
use vstd::prelude::*;

verus! {

/// One WAD: 10^18, the unit of all fixed-point ratios.
pub const WAD: u128 = 1_000_000_000_000_000_000;

/// One basis point unit: 10^4; discounts are configured in basis points.
pub const BPS: u128 = 10_000;

/// 2^64, the base of the limbs used by the wide multiplication.
pub const LIMB: u128 = 0x1_0000_0000_0000_0000;

/// 2^127, used to peel the top bit off a 128-bit word.
pub const TOP_BIT: u128 = 0x8000_0000_0000_0000_0000_0000_0000_0000;

/// 2^128 as a mathematical integer: the weight of the high word of a
/// 256-bit value.
pub open spec fn word() -> int {
    u128::MAX + 1
}

/// The ceiling of `x / d` for a positive divisor.
pub open spec fn div_ceil(x: int, d: int) -> int
    recommends
        d > 0,
{
    (x + d - 1) / d
}

/// Multiplies two 128-bit values into a 256-bit result `(high, low)`.
fn mul_wide(a: u128, b: u128) -> (r: (u128, u128))
    ensures
        r.0 * word() + r.1 == a * b,
{
    proof {
        assert(LIMB * LIMB == word());
    }
    let ah: u128 = a / LIMB;
    let al: u128 = a % LIMB;
    let bh: u128 = b / LIMB;
    let bl: u128 = b % LIMB;
    proof {
        lemma_fundamental_div_mod(a as int, LIMB as int);
        lemma_fundamental_div_mod(b as int, LIMB as int);
        lemma_multiply_divide_lt(a as int, LIMB as int, LIMB as int);
        lemma_multiply_divide_lt(b as int, LIMB as int, LIMB as int);
        assert(ah * bh <= (LIMB - 1) * (LIMB - 1) && ah * bl <= (LIMB - 1) * (LIMB - 1) && al * bh
            <= (LIMB - 1) * (LIMB - 1) && al * bl <= (LIMB - 1) * (LIMB - 1)) by (nonlinear_arith)
            requires
                0 <= ah < LIMB && 0 <= al < LIMB && 0 <= bh < LIMB && 0 <= bl < LIMB,
        ;
    }
    let ll: u128 = al * bl;
    let hl: u128 = ah * bl;
    let lh: u128 = al * bh;
    let hh: u128 = ah * bh;
    proof {
        lemma_multiply_divide_lt(ll as int, LIMB as int, LIMB as int);
        lemma_multiply_divide_lt(hl as int, LIMB as int, LIMB as int);
        lemma_multiply_divide_lt(lh as int, LIMB as int, LIMB as int);
        lemma_multiply_divide_lt(hh as int, LIMB as int, LIMB as int);
    }
    let llh: u128 = ll / LIMB;
    let lll: u128 = ll % LIMB;
    let hlh: u128 = hl / LIMB;
    let hll: u128 = hl % LIMB;
    let lhh: u128 = lh / LIMB;
    let lhl: u128 = lh % LIMB;
    let hhh: u128 = hh / LIMB;
    let hhl: u128 = hh % LIMB;
    let t: u128 = llh + hll + lhl;
    let limb1: u128 = t % LIMB;
    let c1: u128 = t / LIMB;
    let t2: u128 = c1 + hlh + lhh + hhl;
    let limb2: u128 = t2 % LIMB;
    let c2: u128 = t2 / LIMB;
    proof {
        lemma_fundamental_div_mod(ll as int, LIMB as int);
        lemma_fundamental_div_mod(hl as int, LIMB as int);
        lemma_fundamental_div_mod(lh as int, LIMB as int);
        lemma_fundamental_div_mod(hh as int, LIMB as int);
        lemma_fundamental_div_mod(t as int, LIMB as int);
        lemma_fundamental_div_mod(t2 as int, LIMB as int);
        assert(a * b == hh * (LIMB * LIMB) + (hl + lh) * LIMB + ll) by (nonlinear_arith)
            requires
                a == ah * LIMB + al && b == bh * LIMB + bl && hh == ah * bh && hl == ah * bl && lh
                    == al * bh && ll == al * bl,
        ;
        assert(hh + hlh + lhh + c1 == (hhh + c2) * LIMB + limb2) by (nonlinear_arith)
            requires
                hh == hhh * LIMB + hhl && t2 == c1 + hlh + lhh + hhl && t2 == c2 * LIMB + limb2,
        ;
        assert(((hhh + c2) * LIMB + limb2) * word() + (limb1 * LIMB + lll) == a * b)
            by (nonlinear_arith)
            requires
                a * b == hh * (LIMB * LIMB) + (hl + lh) * LIMB + ll && hl == hlh * LIMB + hll && lh
                    == lhh * LIMB + lhl && ll == llh * LIMB + lll && t == llh + hll + lhl && t == c1
                    * LIMB + limb1 && hh + hlh + lhh + c1 == (hhh + c2) * LIMB + limb2 && word()
                    == LIMB * LIMB,
        ;
        assert(a * b <= (word() - 1) * (word() - 1)) by (nonlinear_arith)
            requires
                0 <= a < word() && 0 <= b < word(),
        ;
        assert((hhh + c2) * LIMB + limb2 <= word() - 2) by (nonlinear_arith)
            requires
                ((hhh + c2) * LIMB + limb2) * word() + (limb1 * LIMB + lll) == a * b && a * b <= (
                word() - 1) * (word() - 1) && limb1 * LIMB + lll >= 0 && (hhh + c2) * LIMB + limb2
                    >= 0 && word() > 1,
        ;
    }
    let hi: u128 = (hhh + c2) * LIMB + limb2;
    let lo: u128 = limb1 * LIMB + lll;
    (hi, lo)
}

/// Divides the 256-bit value `hi * 2^128 + lo` by `d` with a bit-by-bit
/// long division, returning the quotient and the remainder. The quotient
/// fits in 128 bits exactly when `hi < d`, which is required here.
fn div_wide(hi: u128, lo: u128, d: u128) -> (r: (u128, u128))
    requires
        d > 0,
        hi < d,
    ensures
        r.0 * d + r.1 == hi * word() + lo,
        r.1 < d,
{
    proof {
        lemma2_to64();
        lemma2_to64_rest();
        lemma_pow2_adds(64, 64);
        lemma_pow2_adds(64, 63);
        assert(pow2(128) == word());
        assert(pow2(127) == TOP_BIT);
        lemma_small_mod(lo as nat, pow2(128));
        lemma_basic_div(lo as int, pow2(128) as int);
    }
    let mut q: u128 = 0;
    let mut rem: u128 = hi;
    let mut sh: u128 = lo;
    let mut i: u64 = 0;
    while i < 128
        invariant
            i <= 128,
            d > 0,
            hi < d,
            rem < d,
            q * d + rem == hi * pow2(i as nat) + lo as int / pow2((128 - i) as nat) as int,
            sh == (lo as int % pow2((128 - i) as nat) as int) * pow2(i as nat),
            q < pow2(i as nat),
            pow2(128) == word(),
            pow2(127) == TOP_BIT,
        decreases 128 - i,
    {
        let ghost k: nat = (128 - i) as nat;
        let ghost rem0: int = rem as int;
        let ghost q0: int = q as int;
        proof {
            lemma_pow2_pos(k);
            lemma_pow2_pos((k - 1) as nat);
            lemma_pow2_pos(i as nat);
            lemma_pow2_pos((i + 1) as nat);
            lemma_pow2_adds((k - 1) as nat, i as nat);
            lemma_pow2_adds((k - 1) as nat, (i + 1) as nat);
            lemma_pow2_adds(k, i as nat);
            lemma_pow2_adds(1, i as nat);
            lemma_pow2_adds(1, (k - 1) as nat);
            lemma2_to64();
            if i < 127 {
                lemma_pow2_strictly_increases(i as nat, 127);
            }
        }
        let ghost rest: int = lo as int % pow2(k) as int;
        let ghost top: int = rest / pow2((k - 1) as nat) as int;
        let ghost low: int = rest % pow2((k - 1) as nat) as int;
        proof {
            lemma_fundamental_div_mod(lo as int, pow2(k) as int);
            lemma_fundamental_div_mod(rest, pow2((k - 1) as nat) as int);
            lemma_multiply_divide_lt(rest, pow2((k - 1) as nat) as int, 2);
            // the top bit of the shift register is the next dividend bit
            assert(sh == top * pow2(127) + low * pow2(i as nat)) by (nonlinear_arith)
                requires
                    sh == rest * pow2(i as nat) && rest == top * pow2((k - 1) as nat) + low && pow2(
                    (k - 1) as nat) * pow2(i as nat) == pow2(127),
            ;
            assert(low * pow2(i as nat) < pow2(127)) by (nonlinear_arith)
                requires
                    0 <= low < pow2((k - 1) as nat) && pow2((k - 1) as nat) * pow2(i as nat)
                        == pow2(127) && pow2(i as nat) > 0,
            ;
            lemma_fundamental_div_mod_converse(
                sh as int,
                pow2(127) as int,
                top,
                low * pow2(i as nat),
            );
            // dropping one bit from the tail: lo % pow2(k-1) == low
            assert(lo as int == ((lo as int / pow2(k) as int) * 2 + top) * pow2((k - 1) as nat)
                + low) by (nonlinear_arith)
                requires
                    lo as int == pow2(k) * (lo as int / pow2(k) as int) + rest && rest == pow2(
                    (k - 1) as nat) * top + low && pow2(k) == 2 * pow2((k - 1) as nat),
            ;
            lemma_fundamental_div_mod_converse(
                lo as int,
                pow2((k - 1) as nat) as int,
                (lo as int / pow2(k) as int) * 2 + top,
                low,
            );
            // so the dividend prefix gains exactly one bit
            assert(lo as int / pow2((k - 1) as nat) as int == 2 * (lo as int / pow2(k) as int)
                + top);
        }
        let bit: u128 = sh / TOP_BIT;
        sh = (sh % TOP_BIT) * 2;
        proof {
            assert(sh == (lo as int % pow2((k - 1) as nat) as int) * pow2((i + 1) as nat))
                by (nonlinear_arith)
                requires
                    sh == 2 * (low * pow2(i as nat)) && low == lo as int % pow2((k - 1) as nat) as int
                        && pow2((i + 1) as nat) == 2 * pow2(i as nat),
            ;
        }
        let qbit: u128;
        if rem >= TOP_BIT {
            // here 2 * rem + bit >= 2^128 > d, so the divisor comes out
            qbit = 1;
            let gap: u128 = d - rem;
            rem = (rem - gap) + bit;
            proof {
                assert(rem == 2 * rem0 + bit - d);
            }
        } else {
            let doubled: u128 = 2 * rem + bit;
            if doubled >= d {
                qbit = 1;
                rem = doubled - d;
            } else {
                qbit = 0;
                rem = doubled;
            }
        }
        proof {
            let prefix2: int = hi * pow2((i + 1) as nat) + lo as int / pow2((k - 1) as nat) as int;
            assert(prefix2 == 2 * (q0 * d + rem0) + bit) by (nonlinear_arith)
                requires
                    prefix2 == hi * pow2((i + 1) as nat) + 2 * (lo as int / pow2(k) as int) + bit
                        && q0 * d + rem0 == hi * pow2(i as nat) + lo as int / pow2(k) as int
                        && pow2((i + 1) as nat) == 2 * pow2(i as nat),
            ;
            assert((q0 * 2 + qbit) * d + rem == prefix2) by (nonlinear_arith)
                requires
                    prefix2 == 2 * (q0 * d + rem0) + bit && qbit * d + rem == 2 * rem0 + bit,
            ;
            // the quotient stays below pow2(i + 1)
            lemma_multiply_divide_lt(
                lo as int,
                pow2((k - 1) as nat) as int,
                pow2((i + 1) as nat) as int,
            );
            assert(q0 * 2 + qbit < pow2((i + 1) as nat)) by (nonlinear_arith)
                requires
                    (q0 * 2 + qbit) * d + rem == prefix2 && prefix2 == hi * pow2((i + 1) as nat)
                        + lo as int / pow2((k - 1) as nat) as int && hi <= d - 1 && 0 <= lo as int
                        / pow2((k - 1) as nat) as int && (lo as int / pow2((k - 1) as nat) as int)
                        < pow2((i + 1) as nat) && rem >= 0 && d > 0 && pow2((i + 1) as nat) > 0,
            ;
        }
        q = q * 2 + qbit;
        i = i + 1;
    }
    proof {
        lemma_div_basics(lo as int);
        assert(pow2(0) == 1) by {
            lemma2_to64();
        }
    }
    (q, rem)
}

/// Returns `a * b / d` rounded down, or `None` when `d` is zero or the
/// quotient does not fit in 128 bits.
pub fn mul_div_floor(a: u128, b: u128, d: u128) -> (r: Option<u128>)
    ensures
        match r {
            Some(q) => d != 0 && q == a * b / (d as int),
            None => d == 0 || a * b / (d as int) > u128::MAX,
        },
{
    if d == 0 {
        return None;
    }
    let (hi, lo) = mul_wide(a, b);
    if hi >= d {
        proof {
            lemma_overflowing_quotient(a as int * b as int, d as int, hi as int, lo as int);
        }
        return None;
    }
    let (q, rem) = div_wide(hi, lo, d);
    proof {
        lemma_fundamental_div_mod_converse(a * b, d as int, q as int, rem as int);
    }
    Some(q)
}

/// Returns `a * b / d` rounded up, or `None` when `d` is zero or the
/// rounded-up quotient does not fit in 128 bits.
pub fn mul_div_ceil(a: u128, b: u128, d: u128) -> (r: Option<u128>)
    ensures
        match r {
            Some(q) => d != 0 && q == div_ceil(a * b, d as int),
            None => d == 0 || div_ceil(a * b, d as int) > u128::MAX,
        },
{
    if d == 0 {
        return None;
    }
    let (hi, lo) = mul_wide(a, b);
    if hi >= d {
        proof {
            lemma_overflowing_quotient(a as int * b as int, d as int, hi as int, lo as int);
            lemma_div_is_ordered(a * b, a * b + d - 1, d as int);
        }
        return None;
    }
    let (q, rem) = div_wide(hi, lo, d);
    proof {
        lemma_div_ceil_exact(a * b, d as int, q as int, rem as int);
    }
    if rem == 0 {
        Some(q)
    } else if q == u128::MAX {
        None
    } else {
        Some(q + 1)
    }
}

/// A 256-bit value whose high word reaches the divisor has a quotient of at
/// least 2^128, which does not fit in a single word.
proof fn lemma_overflowing_quotient(x: int, d: int, hi: int, lo: int)
    requires
        d > 0,
        hi >= d,
        lo >= 0,
        x == hi * word() + lo,
    ensures
        x / d >= word(),
{
    assert(x >= d * word()) by (nonlinear_arith)
        requires
            x == hi * word() + lo && hi >= d && lo >= 0 && word() > 0,
    ;
    lemma_div_is_ordered(d * word(), x, d);
    vstd::arithmetic::div_mod::lemma_div_multiples_vanish(word(), d);
}

/// Compares two products exactly: whether `a * b <= c * d`, through the
/// 256-bit representations.
pub fn mul_le(a: u128, b: u128, c: u128, d: u128) -> (r: bool)
    ensures
        r == (a * b <= c * d),
{
    let (h1, l1) = mul_wide(a, b);
    let (h2, l2) = mul_wide(c, d);
    proof {
        assert((h1 * word() + l1 <= h2 * word() + l2) == (h1 < h2 || (h1 == h2 && l1 <= l2)))
            by (nonlinear_arith)
            requires
                0 <= l1 < word() && 0 <= l2 < word() && h1 >= 0 && h2 >= 0,
        ;
    }
    h1 < h2 || (h1 == h2 && l1 <= l2)
}

/// Scaling by a WAD fraction never grows a value: `f * x / WAD <= x` for
/// `f <= WAD`.
pub proof fn lemma_scale_down(x: int, f: int)
    requires
        0 <= x,
        0 <= f <= WAD,
    ensures
        f * x / (WAD as int) <= x,
{
    assert(f * x <= WAD * x) by (nonlinear_arith)
        requires
            0 <= x && 0 <= f <= WAD,
    ;
    lemma_div_is_ordered(f * x, WAD * x, WAD as int);
    vstd::arithmetic::div_mod::lemma_div_multiples_vanish(x, WAD as int);
    assert(WAD * x == (WAD as int) * x) by (nonlinear_arith);
}

/// A value at most the denominator scales any amount to at most that
/// amount: `x * y / d <= x` when `y <= d`.
pub proof fn lemma_mul_div_le(x: int, y: int, d: int)
    requires
        0 <= x,
        0 <= y <= d,
        0 < d,
    ensures
        x * y / d <= x,
{
    assert(x * y <= x * d) by (nonlinear_arith)
        requires
            0 <= x && 0 <= y <= d,
    ;
    lemma_div_is_ordered(x * y, x * d, d);
    vstd::arithmetic::div_mod::lemma_div_multiples_vanish(x, d);
    assert(x * d == d * x) by (nonlinear_arith);
}

/// A ceiling division of non-negative values is non-negative.
pub proof fn lemma_div_ceil_nonneg(x: int, d: int)
    requires
        x >= 0,
        d > 0,
    ensures
        div_ceil(x, d) >= 0,
{
    vstd::arithmetic::div_mod::lemma_div_pos_is_pos(x + d - 1, d);
}

/// Relates the ceiling of `x / d` to the floor quotient and remainder.
proof fn lemma_div_ceil_exact(x: int, d: int, q: int, r: int)
    requires
        d > 0,
        0 <= r < d,
        x == q * d + r,
    ensures
        r == 0 ==> div_ceil(x, d) == q,
        r != 0 ==> div_ceil(x, d) == q + 1,
{
    if r == 0 {
        lemma_fundamental_div_mod_converse(x + d - 1, d, q, d - 1);
    } else {
        assert(x + d - 1 == (q + 1) * d + (r - 1)) by (nonlinear_arith)
            requires
                x == q * d + r,
        ;
        lemma_fundamental_div_mod_converse(x + d - 1, d, q + 1, r - 1);
    }
}

} // verus!
