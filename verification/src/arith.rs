//! Arithmetic modulo a power of two, and division that rounds toward zero.
use vstd::prelude::*;

verus! {

/// The 8-bit signed number with the bits of the byte `x`.
pub open spec fn wrap8(x: int) -> int {
    let r = x % 0x100;
    if r >= 0x80 {
        r - 0x100
    } else {
        r
    }
}

/// The 16-bit signed number that agrees with `x` in its low 16 bits.
pub open spec fn wrap16(x: int) -> int {
    let r = x % 0x1_0000;
    if r >= 0x8000 {
        r - 0x1_0000
    } else {
        r
    }
}

/// The 32-bit signed number that agrees with `x` in its low 32 bits.
pub open spec fn wrap32(x: int) -> int {
    let r = x % 0x1_0000_0000;
    if r >= 0x8000_0000 {
        r - 0x1_0000_0000
    } else {
        r
    }
}

/// Division that rounds toward zero.
pub open spec fn quotient(a: int, b: int) -> int {
    if a >= 0 {
        a / b
    } else {
        -((-a) / b)
    }
}

pub open spec fn clamp_to(x: int, lo: int, hi: int) -> int {
    if x < lo {
        lo
    } else if x > hi {
        hi
    } else {
        x
    }
}

/// Wrapping may be put off to the end of a sum.
pub proof fn wrap16_late(a: int, b: int)
    ensures
        wrap16(wrap16(a) + b) == wrap16(a + b),
        -0x8000 <= wrap16(a) < 0x8000,
        -0x8000 <= a < 0x8000 ==> wrap16(a) == a,
{
}

pub proof fn wrap32_late(a: int, b: int)
    ensures
        wrap32(wrap32(a) + b) == wrap32(a + b),
        -0x8000_0000 <= wrap32(a) < 0x8000_0000,
        -0x8000_0000 <= a < 0x8000_0000 ==> wrap32(a) == a,
{
}

/// The low 32 bits of a number, as a signed number.
pub fn low_i32(x: i64) -> (r: i32)
    ensures
        r == wrap32(x as int),
{
    proof {
        assert(x % 0x1_0000_0000 == (x & 0xffff_ffff)) by {
            assert(x & 0xffff_ffffi64 == x % 0x1_0000_0000i64) by (bit_vector);
        }
    }
    let m: i64 = x & 0xffff_ffff;
    if m >= 0x8000_0000 {
        (m - 0x1_0000_0000) as i32
    } else {
        m as i32
    }
}

/// The low 16 bits of a number, as a signed number.
pub fn low_i16(x: u32) -> (r: i16)
    ensures
        r == wrap16(x as int),
{
    let m: u32 = x % 0x1_0000;
    if m >= 0x8000 {
        (m as i32 - 0x1_0000) as i16
    } else {
        m as i16
    }
}

/// The bits of a byte, as a signed number.
pub fn low_i8(x: u8) -> (r: i8)
    ensures
        r == wrap8(x as int),
{
    if x >= 0x80 {
        (x as i32 - 0x100) as i8
    } else {
        x as i8
    }
}

/// Division toward zero.
pub fn div_toward_zero(a: i64, b: i64) -> (r: i64)
    requires
        b > 0,
        a > i64::MIN,
    ensures
        r == quotient(a as int, b as int),
        -(if a >= 0 {
            a as int
        } else {
            -a as int
        }) <= r <= (if a >= 0 {
            a as int
        } else {
            -a as int
        }),
{
    proof {
        let m = if a >= 0 {
            a as int
        } else {
            -a as int
        };
        assert(0 <= m / (b as int) <= m) by (nonlinear_arith)
            requires
                m >= 0,
                b > 0,
        ;
    }
    if a >= 0 {
        a / b
    } else {
        -((-a) / b)
    }
}

pub fn clamp_i32(x: i32, lo: i32, hi: i32) -> (r: i32)
    requires
        lo <= hi,
    ensures
        r == clamp_to(x as int, lo as int, hi as int),
{
    if x < lo {
        lo
    } else if x > hi {
        hi
    } else {
        x
    }
}

/// Sums, differences and negation of 32-bit numbers that wrap around.
pub open spec fn wadd(a: i32, b: i32) -> i32 {
    vstd::wrapping::i32_specs::wrapping_add(a, b)
}

pub open spec fn wsub(a: i32, b: i32) -> i32 {
    vstd::wrapping::i32_specs::wrapping_sub(a, b)
}

pub open spec fn wneg(a: i32) -> i32 {
    wsub(0, a)
}

pub open spec fn wmul(a: i32, b: i32) -> i32 {
    wrap32(a * b) as i32
}

pub open spec fn wabs(a: i32) -> i32 {
    if a < 0 {
        wneg(a)
    } else {
        a
    }
}

pub fn neg_i32(a: i32) -> (r: i32)
    ensures
        r == wneg(a),
{
    0i32.wrapping_sub(a)
}

pub fn mul_i32(a: i32, b: i32) -> (r: i32)
    ensures
        r == wmul(a, b),
{
    proof {
        assert(-0x4000_0000_0000_0000 <= a * b <= 0x4000_0000_0000_0000) by (nonlinear_arith)
            requires
                -0x8000_0000 <= a < 0x8000_0000,
                -0x8000_0000 <= b < 0x8000_0000,
        ;
    }
    low_i32(a as i64 * b as i64)
}

pub fn abs_i32(a: i32) -> (r: i32)
    ensures
        r == wabs(a),
{
    if a < 0 {
        neg_i32(a)
    } else {
        a
    }
}

} // verus!
