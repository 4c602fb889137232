//! Numbers with a mantissa of 53 bits, rounded to nearest with ties to even:
//! the division of double-precision numbers, in integers.
use vstd::prelude::*;

verus! {

/// A positive number `m * mult / unit`, one of `mult` and `unit` being one and
/// the other a power of two.
pub struct Double {
    pub m: int,
    pub mult: int,
    pub unit: int,
}

/// The integer nearest to a fraction; of two equally near, the even one.
pub open spec fn nearest_integer(num: int, den: int) -> int {
    let q = num / den;
    let r = num % den;
    if 2 * r > den || (2 * r == den && q % 2 == 1) {
        q + 1
    } else {
        q
    }
}

/// The fraction is made larger until it has 53 bits before the point, then
/// rounded.
pub open spec fn rounded_up(num: int, den: int, unit: int) -> Double
    decreases
            if num < 0x10_0000_0000_0000 * den {
                0x10_0000_0000_0000 * den - num
            } else {
                0
            },
{
    if num <= 0 || den <= 0 {
        Double { m: 0, mult: 1, unit: 1 }
    } else if num < 0x10_0000_0000_0000 * den {
        rounded_up(2 * num, den, 2 * unit)
    } else {
        Double { m: nearest_integer(num, den), mult: 1, unit }
    }
}

/// The fraction is made smaller until it has 53 bits before the point, then
/// rounded.
pub open spec fn rounded_down(num: int, den: int, mult: int) -> Double
    decreases
            if num >= 0x20_0000_0000_0000 * den {
                num - 0x20_0000_0000_0000 * den + 1
            } else {
                0
            },
{
    if den > 0 && num >= 0x20_0000_0000_0000 * den {
        rounded_down(num, 2 * den, 2 * mult)
    } else {
        Double { m: nearest_integer(num, den), mult, unit: 1 }
    }
}

/// The double-precision number nearest to a fraction.
pub open spec fn fraction(num: int, den: int) -> Double {
    if num >= 0x20_0000_0000_0000 * den {
        rounded_down(num, den, 1)
    } else {
        rounded_up(num, den, 1)
    }
}

/// The double-precision number nearest to an integer, itself an integer.
pub open spec fn rounded_integer(n: int) -> int {
    if n < 0x20_0000_0000_0000 {
        n
    } else {
        fraction(n, 1).m * fraction(n, 1).mult
    }
}

/// The quotient of two double-precision numbers in double precision, the first
/// an integer, without what is behind the point.
pub open spec fn divided(n: int, d: Double) -> int {
    let q = fraction(n * d.unit, d.m * d.mult);
    q.m * q.mult / q.unit
}

/// `n` things in `ms` milliseconds, in things a second: `n / (ms / 1000)` in
/// double precision, cut to an integer and to the largest number there is.
pub open spec fn per_second(n: u64, ms: u64) -> int {
    let v = divided(rounded_integer(n as int), fraction(rounded_integer(ms as int), 1000));
    if v > u64::MAX {
        u64::MAX as int
    } else {
        v
    }
}

/// A double-precision number that is not zero.
struct Parts {
    m: u128,
    mult: u128,
    unit: u128,
}

fn nearest_of(num: u128, den: u128) -> (r: u128)
    requires
        0 < den,
        num < 0x20_0000_0000_0000 * den,
        den <= 0x400_0000_0000_0000_0000_0000_0000,
    ensures
        r == nearest_integer(num as int, den as int),
        r <= 0x20_0000_0000_0000,
        r * den <= num + den,
        num >= 0x10_0000_0000_0000 * den ==> r >= 0x10_0000_0000_0000,
{
    let q: u128 = num / den;
    let r: u128 = num % den;
    proof {
        let (n, d, x) = (num as int, den as int, q as int);
        assert(x < 0x20_0000_0000_0000) by (nonlinear_arith)
            requires
                n < 0x20_0000_0000_0000 * d,
                d > 0,
                x == n / d,
        ;
        assert(x * d <= n && (x + 1) * d <= n + d) by (nonlinear_arith)
            requires
                n >= 0,
                d > 0,
                x == n / d,
        ;
        if n >= 0x10_0000_0000_0000 * d {
            assert(x >= 0x10_0000_0000_0000) by (nonlinear_arith)
                requires
                    n >= 0x10_0000_0000_0000 * d,
                    d > 0,
                    x == n / d,
            ;
        }
    }
    if 2 * r > den || (2 * r == den && q % 2 == 1) {
        q + 1
    } else {
        q
    }
}

fn round_fraction(num: u128, den: u128) -> (r: Parts)
    requires
        0 < num <= 0x8000_0000_0000_0000_0000_0000_0000_0000,
        0 < den <= 0x20_0000_0000_0000_0000,
    ensures
        fraction(num as int, den as int) == (Double {
            m: r.m as int,
            mult: r.mult as int,
            unit: r.unit as int,
        }),
        0x10_0000_0000_0000 <= r.m <= 0x20_0000_0000_0000,
        1 <= r.mult,
        1 <= r.unit,
        r.mult == 1 || r.unit == 1,
        r.unit <= 0x20_0000_0000_0000 * den,
        r.mult > 1 ==> 0x10_0000_0000_0000 * (r.mult * den) <= num && r.m * (r.mult * den) <= num
            + r.mult * den,
        num >= 0x20_0000_0000_0000 * den ==> r.mult > 1,
{
    let mut d: u128 = den;
    let mut mult: u128 = 1;
    if num >= 0x20_0000_0000_0000 * den {
        while num / 0x20_0000_0000_0000 >= d
            invariant
                0 < den,
                0 < d,
                num <= 0x8000_0000_0000_0000_0000_0000_0000_0000,
                num >= 0x10_0000_0000_0000 * d,
                d == mult * den,
                1 <= mult <= d,
                mult > 1 || num >= 0x20_0000_0000_0000 * d,
                rounded_down(num as int, d as int, mult as int) == rounded_down(
                    num as int,
                    den as int,
                    1,
                ),
            decreases num - 0x10_0000_0000_0000 * d,
        {
            proof {
                assert(2 * (mult * den) == (2 * mult) * den) by (nonlinear_arith);
            }
            d = 2 * d;
            mult = 2 * mult;
        }
        return Parts { m: nearest_of(num, d), mult, unit: 1 };
    }
    let mut n: u128 = num;
    let mut unit: u128 = 1;
    while n < 0x10_0000_0000_0000 * den
        invariant
            0 < n < 0x20_0000_0000_0000 * den,
            0 < den <= 0x20_0000_0000_0000_0000,
            1 <= unit <= n,
            rounded_up(n as int, den as int, unit as int) == rounded_up(num as int, den as int, 1),
        decreases 0x20_0000_0000_0000 * den - n,
    {
        n = 2 * n;
        unit = 2 * unit;
    }
    Parts { m: nearest_of(n, den), mult: 1, unit }
}

fn round_integer(n: u64) -> (r: u128)
    ensures
        r == rounded_integer(n as int),
        r <= 0x1_0000_0000_0000_1000,
        n > 0 ==> r > 0,
{
    if n < 0x20_0000_0000_0000 {
        return n as u128;
    }
    let p = round_fraction(n as u128, 1);
    proof {
        let (m, k) = (p.m as int, p.mult as int);
        assert(k <= 0x1000);
        assert(k * 1 == k);
        assert(m * k > 0) by (nonlinear_arith)
            requires
                m > 0,
                k >= 1,
        ;
    }
    p.m * p.mult
}

/// `n` things in `ms` milliseconds, in things a second.
pub fn rate(n: u64, ms: u64) -> (r: u64)
    requires
        ms > 0,
    ensures
        r == per_second(n, ms),
{
    let things = round_integer(n);
    let time = round_fraction(round_integer(ms), 1000);
    proof {
        let (t, u, m, k) = (things as int, time.unit as int, time.m as int, time.mult as int);
        assert(k <= 0x1000);
        assert(0 <= t * u <= 0x1_0000_0000_0000_1000 * (0x20_0000_0000_0000 * 1000)) by (nonlinear_arith)
            requires
                0 <= t <= 0x1_0000_0000_0000_1000,
                1 <= u <= 0x20_0000_0000_0000 * 1000,
        ;
        assert(0x10_0000_0000_0000 <= m * k <= 0x20_0000_0000_0000 * 0x1000) by (nonlinear_arith)
            requires
                0x10_0000_0000_0000 <= m <= 0x20_0000_0000_0000,
                1 <= k <= 0x1000,
        ;
        if t == 0 {
            assert(t * u == 0) by (nonlinear_arith)
                requires
                    t == 0,
            ;
        } else {
            assert(t * u > 0) by (nonlinear_arith)
                requires
                    t > 0,
                    u > 0,
            ;
        }
    }
    let num: u128 = things * time.unit;
    let den: u128 = time.m * time.mult;
    if num == 0 {
        return 0;
    }
    let q = round_fraction(num, den);
    proof {
        let (m, k, d) = (q.m as int, q.mult as int, den as int);
        if k > 1 {
            assert(k <= 0x1_0000_0000) by (nonlinear_arith)
                requires
                    0x10_0000_0000_0000 * (k * d) <= 0x8000_0000_0000_0000_0000_0000_0000_0000,
                    d >= 0x10_0000_0000_0000,
                    k > 1,
            ;
        }
        assert(0 <= m * k <= 0x20_0000_0000_0000 * 0x1_0000_0000) by (nonlinear_arith)
            requires
                0 <= m <= 0x20_0000_0000_0000,
                1 <= k <= 0x1_0000_0000,
        ;
    }
    let v: u128 = q.m * q.mult / q.unit;
    if v > 0xffff_ffff_ffff_ffff {
        0xffff_ffff_ffff_ffff
    } else {
        v as u64
    }
}

} // verus!
