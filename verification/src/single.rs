//! Numbers with a mantissa of 24 bits, rounded to nearest with ties to even:
//! the arithmetic of single-precision numbers, in integers.
use vstd::prelude::*;
use crate::arith::{clamp_to, div_toward_zero, quotient};
use vstd::arithmetic::div_mod::{lemma_fundamental_div_mod, lemma_mod_bound};
use vstd::arithmetic::mul::lemma_mul_is_commutative;

verus! {

pub const MANTISSA_LIMIT: i64 = 0x100_0000;

/// The distance of neighbouring numbers with 24 significant bits around `a`.
pub open spec fn unit_of(a: int) -> int
    decreases a,
{
    if a < 0x100_0000 {
        1
    } else {
        2 * unit_of(a / 2)
    }
}

/// The nearest multiple of `unit`; of two equally near, the even one.
pub open spec fn nearest(a: int, unit: int) -> int {
    let q = a / unit;
    let r = a % unit;
    if 2 * r > unit || (2 * r == unit && q % 2 == 1) {
        (q + 1) * unit
    } else {
        q * unit
    }
}

/// The number with 24 significant bits that is nearest to `n`.
pub open spec fn round24(n: int) -> int {
    if n >= 0 {
        nearest(n, unit_of(n))
    } else {
        -nearest(-n, unit_of(-n))
    }
}

/// 0.2695 in units of 2^-25.
pub const LOW_SHARE: i64 = 9_042_919;

/// 0.7305 in units of 2^-24.
pub const HIGH_SHARE: i64 = 12_255_756;

/// The product of two single-precision numbers and their sum, in units of
/// 2^-25: 0.2695 of `a` plus 0.7305 of `b`.
pub open spec fn shares(a: int, b: int) -> int {
    round24(round24(round24(a) * LOW_SHARE) + 2 * round24(round24(b) * HIGH_SHARE))
}

/// A mixture of two scores, 0.2695 of the first and 0.7305 of the second,
/// computed in single precision and cut to an integer.
pub open spec fn mixed(a: i32, b: i32) -> i32 {
    clamp_to(quotient(shares(a as int, b as int), 0x200_0000), -0x8000_0000, 0x7fff_ffff) as i32
}

proof fn unit_bounds(a: int)
    requires
        0 <= a,
    ensures
        unit_of(a) >= 1,
        unit_of(a) <= if a < 0x100_0000 {
            1
        } else {
            a
        },
        unit_of(a) > 1 ==> unit_of(a) % 2 == 0,
    decreases a,
{
    if a >= 0x100_0000 {
        unit_bounds(a / 2);
    }
}

proof fn nearest_bounds(a: int, unit: int)
    requires
        0 <= a,
        1 <= unit,
        unit == 1 || unit <= a,
    ensures
        0 <= nearest(a, unit) <= 2 * a,
{
    let q = a / unit;
    let r = a % unit;
    lemma_fundamental_div_mod(a, unit);
    lemma_mod_bound(a, unit);
    lemma_mul_is_commutative(q, unit);
    assert(q >= 0) by (nonlinear_arith)
        requires
            a >= 0,
            unit >= 1,
            q == a / unit,
    ;
    assert((q + 1) * unit == q * unit + unit) by (nonlinear_arith);
    assert(q * unit >= 0) by (nonlinear_arith)
        requires
            q >= 0,
            unit >= 1,
    ;
}

fn unit_for(a: i64) -> (r: i64)
    requires
        0 <= a <= 0x2000_0000_0000_0000,
    ensures
        r == unit_of(a as int),
        1 <= r,
{
    let mut x: i64 = a;
    let mut unit: i64 = 1;
    proof {
        unit_bounds(a as int);
    }
    while x >= MANTISSA_LIMIT
        invariant
            0 <= x,
            1 <= unit,
            unit * unit_of(x as int) == unit_of(a as int),
            unit_of(a as int) <= 0x2000_0000_0000_0000,
        decreases x,
    {
        proof {
            let u = unit_of(x / 2);
            unit_bounds(x / 2);
            assert(unit_of(x as int) == 2 * u);
            assert(unit * (2 * u) == (2 * unit) * u) by (nonlinear_arith);
            assert(2 * unit <= (2 * unit) * u) by (nonlinear_arith)
                requires
                    unit >= 1,
                    u >= 1,
            ;
        }
        unit = 2 * unit;
        x = x / 2;
    }
    proof {
        assert(unit_of(x as int) == 1);
        assert(unit * 1 == unit);
    }
    unit
}

fn round_magnitude(a: i64) -> (r: i64)
    requires
        0 <= a <= 0x2000_0000_0000_0000,
    ensures
        r == nearest(a as int, unit_of(a as int)),
        0 <= r <= 2 * a,
{
    let unit = unit_for(a);
    proof {
        unit_bounds(a as int);
        nearest_bounds(a as int, unit as int);
        let q0 = a as int / unit as int;
        lemma_fundamental_div_mod(a as int, unit as int);
        lemma_mod_bound(a as int, unit as int);
        lemma_mul_is_commutative(q0, unit as int);
        assert((q0 + 1) * unit == q0 * unit + unit) by (nonlinear_arith);
        assert(0 <= q0 <= a) by (nonlinear_arith)
            requires
                a >= 0,
                unit >= 1,
                q0 == a as int / unit as int,
        ;
    }
    let q: i64 = a / unit;
    let r: i64 = a % unit;
    if 2 * r > unit || (2 * r == unit && q % 2 == 1) {
        (q + 1) * unit
    } else {
        q * unit
    }
}

fn round_to_24(n: i64) -> (r: i64)
    requires
        -0x2000_0000_0000_0000 <= n <= 0x2000_0000_0000_0000,
    ensures
        r == round24(n as int),
        n >= 0 ==> 0 <= r <= 2 * n,
        n < 0 ==> 2 * n <= r <= 0,
{
    if n >= 0 {
        round_magnitude(n)
    } else {
        -round_magnitude(-n)
    }
}

/// Mixes two scores.
pub fn mix(a: i32, b: i32) -> (r: i32)
    ensures
        r == mixed(a, b),
{
    let fa: i64 = round_to_24(a as i64);
    let fb: i64 = round_to_24(b as i64);
    proof {
        assert(-0x100_0000_0000_0000 <= fa * LOW_SHARE <= 0x100_0000_0000_0000) by (nonlinear_arith)
            requires
                -0x1_0000_0000 <= fa <= 0x1_0000_0000,
                LOW_SHARE == 9_042_919,
        ;
        assert(-0x100_0000_0000_0000 <= fb * HIGH_SHARE <= 0x100_0000_0000_0000)
            by (nonlinear_arith)
            requires
                -0x1_0000_0000 <= fb <= 0x1_0000_0000,
                HIGH_SHARE == 12_255_756,
        ;
    }
    let pa: i64 = round_to_24(fa * LOW_SHARE);
    let pb: i64 = round_to_24(fb * HIGH_SHARE);
    let sum: i64 = round_to_24(pa + 2 * pb);
    let cut: i64 = div_toward_zero(sum, 0x200_0000);
    if cut < -0x8000_0000 {
        -0x8000_0000
    } else if cut > 0x7fff_ffff {
        0x7fff_ffff
    } else {
        cut as i32
    }
}

} // verus!
