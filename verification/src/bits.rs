//! Reasoning about 64-bit masks as sets of squares.
//!
//! A mask is read through [`on`]: square `s` belongs to `bb` when bit `s` of
//! `bb` is one. The lemmas below say what the machine operations do to that
//! set, so that everything above this file can argue about squares alone.
use vstd::prelude::*;
use vstd::std_specs::bits::{axiom_u64_leading_zeros, axiom_u64_trailing_zeros, u64_leading_zeros, u64_trailing_zeros};

verus! {

/// Square `s` is a member of the mask `bb`.
#[verifier::opaque]
pub open spec fn on(bb: u64, s: int) -> bool {
    0 <= s < 64 && (bb >> (s as u64)) & 1u64 == 1u64
}

/// The mask as a table of 64 flags.
pub open spec fn flags(bb: u64) -> Seq<bool> {
    Seq::new(64, |s: int| on(bb, s))
}

/// Number of members of `bb` below square `n`.
pub open spec fn count_below(bb: u64, n: int) -> nat
    decreases n,
{
    if n <= 0 {
        0
    } else {
        count_below(bb, n - 1) + if on(bb, n - 1) {
            1nat
        } else {
            0nat
        }
    }
}

/// Number of members of `bb`.
pub open spec fn count(bb: u64) -> nat {
    count_below(bb, 64)
}

pub broadcast proof fn on_range(bb: u64, s: int)
    requires
        #[trigger] on(bb, s),
    ensures
        0 <= s < 64,
{
    reveal(on);
}

pub broadcast proof fn on_or(a: u64, b: u64, s: int)
    ensures
        #[trigger] on(a | b, s) <==> on(a, s) || on(b, s),
{
    reveal(on);
    let t = s as u64;
    assert(((a | b) >> t) & 1u64 == 1u64 <==> (a >> t) & 1u64 == 1u64 || (b >> t) & 1u64 == 1u64)
        by (bit_vector);
}

pub broadcast proof fn on_and(a: u64, b: u64, s: int)
    ensures
        #[trigger] on(a & b, s) <==> on(a, s) && on(b, s),
{
    reveal(on);
    let t = s as u64;
    assert(((a & b) >> t) & 1u64 == 1u64 <==> (a >> t) & 1u64 == 1u64 && (b >> t) & 1u64 == 1u64)
        by (bit_vector);
}

pub broadcast proof fn on_xor(a: u64, b: u64, s: int)
    ensures
        #[trigger] on(a ^ b, s) <==> (on(a, s) != on(b, s)),
{
    reveal(on);
    let t = s as u64;
    assert(((a ^ b) >> t) & 1u64 == 1u64 <==> ((a >> t) & 1u64 == 1u64) != ((b >> t) & 1u64
        == 1u64)) by (bit_vector);
}

pub broadcast proof fn on_not(a: u64, s: int)
    ensures
        #[trigger] on(!a, s) <==> 0 <= s < 64 && !on(a, s),
{
    reveal(on);
    let t = s as u64;
    assert(t < 64 ==> ((!a >> t) & 1u64 == 1u64 <==> (a >> t) & 1u64 != 1u64)) by (bit_vector);
}

pub broadcast proof fn on_none(s: int)
    ensures
        !#[trigger] on(0u64, s),
{
    reveal(on);
    let t = s as u64;
    assert((0u64 >> t) & 1u64 == 0u64) by (bit_vector);
}

pub broadcast proof fn on_all(s: int)
    ensures
        #[trigger] on(0xffff_ffff_ffff_ffffu64, s) <==> 0 <= s < 64,
{
    reveal(on);
    let t = s as u64;
    assert(t < 64 ==> (0xffff_ffff_ffff_ffffu64 >> t) & 1u64 == 1u64) by (bit_vector);
}

/// A mask with one bit set has that square as its only member.
pub proof fn on_single(t: u8, s: int)
    requires
        t < 64,
    ensures
        on(1u64 << t, s) <==> s == t,
{
    reveal(on);
    if 0 <= s < 64 {
        let u = s as u64;
        let v = t as u64;
        assert(((1u64 << v) >> u) & 1u64 == 1u64 <==> u == v) by (bit_vector)
            requires
                u < 64,
                v < 64,
        ;
    }
}

pub broadcast group group_bits {
    on_range,
    on_or,
    on_and,
    on_xor,
    on_not,
    on_none,
    on_all,
}

/// A non-empty mask has its lowest set bit as its least member.
pub proof fn lowest(bb: u64)
    requires
        bb != 0,
    ensures
        u64_trailing_zeros(bb) < 64,
        on(bb, u64_trailing_zeros(bb) as int),
        forall|s: int| #[trigger] on(bb, s) ==> s >= u64_trailing_zeros(bb),
{
    axiom_u64_trailing_zeros(bb);
    reveal(on);
    assert forall|s: int| #[trigger] on(bb, s) implies s >= u64_trailing_zeros(bb) by {
        if s < u64_trailing_zeros(bb) {
            let j = s as u64;
            assert((bb >> j) & 1u64 == 0u64);
        }
    }
}

/// A non-empty mask has its highest set bit as its greatest member.
pub proof fn highest(bb: u64)
    requires
        bb != 0,
    ensures
        0 <= u64_leading_zeros(bb) < 64,
        on(bb, 63 - u64_leading_zeros(bb)),
        forall|s: int| #[trigger] on(bb, s) ==> s <= 63 - u64_leading_zeros(bb),
{
    axiom_u64_leading_zeros(bb);
    reveal(on);
    let z = u64_leading_zeros(bb);
    let k = (63 - z) as u64;
    assert((63 - z) as u64 == k);
    assert((bb >> k) & 1u64 != 0u64 ==> (bb >> k) & 1u64 == 1u64) by (bit_vector);
    assert forall|s: int| #[trigger] on(bb, s) implies s <= 63 - z by {
        if s > 63 - z {
            let j = s as u64;
            assert((bb >> j) & 1u64 == 0u64);
        }
    }
}

/// A mask without members is zero.
pub proof fn no_members(bb: u64)
    requires
        forall|s: int| !on(bb, s),
    ensures
        bb == 0,
{
    if bb != 0 {
        lowest(bb);
    }
}

/// Two masks with the same members are the same mask.
pub proof fn same_members(a: u64, b: u64)
    requires
        forall|s: int| 0 <= s < 64 ==> (#[trigger] on(a, s) <==> on(b, s)),
    ensures
        a == b,
{
    broadcast use group_bits;

    assert forall|s: int| !on(a ^ b, s) by {
        if 0 <= s < 64 {
            assert(on(a, s) <==> on(b, s));
        }
    }
    no_members(a ^ b);
    assert(a ^ b == 0 ==> a == b) by (bit_vector);
}

/// Clearing the lowest set bit removes exactly the least member.
pub proof fn clear_lowest(bb: u64)
    requires
        bb != 0,
    ensures
        forall|s: int| #[trigger]
            on(bb & ((bb - 1) as u64), s) <==> on(bb, s) && s != u64_trailing_zeros(bb),
{
    lowest(bb);
    let z = u64_trailing_zeros(bb) as u64;
    axiom_u64_trailing_zeros(bb);
    let c = bb & ((bb - 1) as u64);
    assert forall|s: int| #[trigger] on(c, s) <==> on(bb, s) && s != z by {
        reveal(on);
        if 0 <= s < 64 {
            let u = s as u64;
            assert(bb << ((64 - z) as u64) == 0);
            assert((c >> u) & 1u64 == 1u64 <==> (bb >> u) & 1u64 == 1u64 && u != z) by (bit_vector)
                requires
                    z < 64,
                    u < 64,
                    bb << ((64 - z) as u64) == 0,
                    (bb >> z) & 1u64 == 1u64,
                    c == bb & ((bb - 1) as u64),
            ;
        }
    }
}

/// Masks that agree below `n` count alike there.
pub proof fn count_agrees(a: u64, b: u64, n: int)
    requires
        forall|s: int| 0 <= s < n ==> (#[trigger] on(a, s) <==> on(b, s)),
    ensures
        count_below(a, n) == count_below(b, n),
    decreases n,
{
    if n > 0 {
        count_agrees(a, b, n - 1);
        assert(on(a, n - 1) <==> on(b, n - 1));
    }
}

/// Removing one member lowers the count by one.
pub proof fn count_remove(a: u64, b: u64, t: int, n: int)
    requires
        0 <= t < 64,
        on(a, t),
        forall|s: int| #[trigger] on(b, s) <==> on(a, s) && s != t,
        n <= 64,
    ensures
        count_below(a, n) == count_below(b, n) + if t < n {
            1nat
        } else {
            0nat
        },
    decreases n,
{
    if n > 0 {
        count_remove(a, b, t, n - 1);
        assert(on(b, n - 1) <==> on(a, n - 1) && n - 1 != t);
    }
}

pub proof fn count_bounds(bb: u64, n: int)
    ensures
        count_below(bb, n) <= if n > 0 {
            n
        } else {
            0
        },
        forall|s: int| 0 <= s < n && #[trigger] on(bb, s) ==> count_below(bb, n) >= 1,
        count_below(bb, n) >= 1 ==> exists|s: int| 0 <= s < n && #[trigger] on(bb, s),
    decreases n,
{
    if n > 0 {
        count_bounds(bb, n - 1);
        if on(bb, n - 1) {
            assert(0 <= n - 1 < n && on(bb, n - 1));
        }
    }
}

/// What small counts say about the members.
pub proof fn small_counts(bb: u64)
    ensures
        count(bb) <= 64,
        count(bb) == 0 <==> bb == 0,
        count(bb) == 1 ==> bb != 0 && forall|s: int|
            on(bb, s) ==> s == u64_trailing_zeros(bb),
        count(bb) >= 2 ==> exists|s: int, t: int|
            s != t && #[trigger] on(bb, s) && #[trigger] on(bb, t),
{
    broadcast use group_bits;

    count_bounds(bb, 64);
    if bb != 0 {
        lowest(bb);
        let z = u64_trailing_zeros(bb) as int;
        let c = bb & ((bb - 1) as u64);
        clear_lowest(bb);
        count_remove(bb, c, z, 64);
        count_bounds(c, 64);
        assert(count(c) == count(bb) - 1);
        if count(bb) >= 2 {
            let s = choose|s: int| 0 <= s < 64 && #[trigger] on(c, s);
            assert(s != z && on(bb, s) && on(bb, z));
        }
        if count(bb) == 1 {
            assert forall|s: int| on(bb, s) implies s == z by {
                if s != z {
                    assert(on(c, s));
                }
            }
        }
    }
}

} // verus!
