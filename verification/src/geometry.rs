//! The geometry of an 8x8 board, as mathematics.
//!
//! Squares are the integers 0..64, counted along ranks from a1. Directions are
//! the integers 0..8 in the order N, S, E, W, NE, NW, SE, SW. The eight
//! relations [`on_ray`] order the squares of a line; everything about sliding
//! pieces, pins and blocks is said in terms of them.
use vstd::prelude::*;

verus! {

pub open spec fn valid(s: int) -> bool {
    0 <= s < 64
}

pub open spec fn rank(s: int) -> int {
    s / 8
}

pub open spec fn file(s: int) -> int {
    s % 8
}

/// Rank step of a direction.
pub open spec fn rank_step(d: int) -> int {
    if d == 0 || d == 4 || d == 5 {
        1
    } else if d == 1 || d == 6 || d == 7 {
        -1
    } else {
        0
    }
}

/// File step of a direction.
pub open spec fn file_step(d: int) -> int {
    if d == 2 || d == 4 || d == 6 {
        1
    } else if d == 3 || d == 5 || d == 7 {
        -1
    } else {
        0
    }
}

/// Walking from `s` in direction `d` (at least one step) meets `t`.
#[verifier::opaque]
pub open spec fn on_ray(d: int, s: int, t: int) -> bool {
    let dr = rank(t) - rank(s);
    let df = file(t) - file(s);
    &&& valid(s)
    &&& valid(t)
    &&& {
        ||| d == 0 && dr > 0 && df == 0
        ||| d == 1 && dr < 0 && df == 0
        ||| d == 2 && dr == 0 && df > 0
        ||| d == 3 && dr == 0 && df < 0
        ||| d == 4 && dr > 0 && df == dr
        ||| d == 5 && dr > 0 && df == -dr
        ||| d == 6 && dr < 0 && df == -dr
        ||| d == 7 && dr < 0 && df == dr
    }
}

/// The direction that walks back.
pub open spec fn opposite(d: int) -> int {
    if d == 0 {
        1
    } else if d == 1 {
        0
    } else if d == 2 {
        3
    } else if d == 3 {
        2
    } else if d == 4 {
        7
    } else if d == 7 {
        4
    } else if d == 5 {
        6
    } else {
        5
    }
}

pub open spec fn is_rook_dir(d: int) -> bool {
    0 <= d < 4
}

pub open spec fn is_bishop_dir(d: int) -> bool {
    4 <= d < 8
}

/// Square indices grow along these directions and shrink along the others.
pub open spec fn ascending(d: int) -> bool {
    d == 0 || d == 2 || d == 4 || d == 5
}

/// `u` lies strictly between `s` and `t` on the line through them.
pub open spec fn between(s: int, t: int, u: int) -> bool {
    exists|d: int| #[trigger] on_ray(d, s, u) && on_ray(d, u, t)
}

/// A slider on `s` moving in direction `d` over the occupied squares `occ`
/// reaches `t`: nothing stands between them.
pub open spec fn slides(d: int, s: int, t: int, occ: Seq<bool>) -> bool {
    &&& on_ray(d, s, t)
    &&& forall|u: int| #[trigger] on_ray(d, s, u) && on_ray(d, u, t) ==> !occ[u]
}

pub open spec fn rook_reaches(s: int, t: int, occ: Seq<bool>) -> bool {
    slides(0, s, t, occ) || slides(1, s, t, occ) || slides(2, s, t, occ) || slides(3, s, t, occ)
}

pub open spec fn bishop_reaches(s: int, t: int, occ: Seq<bool>) -> bool {
    slides(4, s, t, occ) || slides(5, s, t, occ) || slides(6, s, t, occ) || slides(7, s, t, occ)
}

pub open spec fn knight_reaches(s: int, t: int) -> bool {
    let dr = rank(t) - rank(s);
    let df = file(t) - file(s);
    &&& valid(s)
    &&& valid(t)
    &&& ((dr == 1 || dr == -1) && (df == 2 || df == -2)) || ((dr == 2 || dr == -2) && (df == 1
        || df == -1))
}

pub open spec fn king_reaches(s: int, t: int) -> bool {
    let dr = rank(t) - rank(s);
    let df = file(t) - file(s);
    &&& valid(s)
    &&& valid(t)
    &&& -1 <= dr <= 1
    &&& -1 <= df <= 1
    &&& s != t
}

/// A pawn on `s` attacks `t`; white pawns attack upwards.
pub open spec fn pawn_reaches(white: bool, s: int, t: int) -> bool {
    let dr = rank(t) - rank(s);
    let df = file(t) - file(s);
    &&& valid(s)
    &&& valid(t)
    &&& dr == (if white {
        1int
    } else {
        -1int
    })
    &&& df == 1 || df == -1
}

pub proof fn ray_valid(d: int, s: int, t: int)
    requires
        on_ray(d, s, t),
    ensures
        0 <= d < 8,
        valid(s),
        valid(t),
        s != t,
        !on_ray(d, t, s),
{
    reveal(on_ray);
}

pub proof fn ray_trans(d: int, s: int, u: int, t: int)
    requires
        on_ray(d, s, u),
        on_ray(d, u, t),
    ensures
        on_ray(d, s, t),
        s != t,
        u != t,
{
    reveal(on_ray);
}

/// Two squares seen in the same direction are ordered along it.
pub proof fn ray_total(d: int, s: int, t: int, u: int)
    requires
        on_ray(d, s, t),
        on_ray(d, s, u),
        t != u,
    ensures
        on_ray(d, t, u) || on_ray(d, u, t),
        !(on_ray(d, t, u) && on_ray(d, u, t)),
{
    reveal(on_ray);
}

/// The direction from one square to another is unique.
pub proof fn ray_unique(d: int, e: int, s: int, t: int)
    requires
        on_ray(d, s, t),
        on_ray(e, s, t),
    ensures
        d == e,
{
    reveal(on_ray);
}

pub proof fn ray_opposite(d: int, s: int, t: int)
    requires
        0 <= d < 8,
    ensures
        on_ray(d, s, t) <==> on_ray(opposite(d), t, s),
        opposite(opposite(d)) == d,
        0 <= opposite(d) < 8,
        is_rook_dir(opposite(d)) <==> is_rook_dir(d),
{
    reveal(on_ray);
}

pub proof fn ray_index(d: int, s: int, t: int)
    requires
        on_ray(d, s, t),
    ensures
        ascending(d) ==> s < t,
        !ascending(d) ==> t < s,
{
    reveal(on_ray);
}

/// Sliding is symmetric: what `s` reaches reaches `s` the other way.
pub proof fn slides_back(d: int, s: int, t: int, occ: Seq<bool>)
    requires
        slides(d, s, t, occ),
    ensures
        slides(opposite(d), t, s, occ),
{
    ray_valid(d, s, t);
    let e = opposite(d);
    ray_opposite(d, s, t);
    assert forall|u: int| #[trigger] on_ray(e, t, u) && on_ray(e, u, s) implies !occ[u] by {
        ray_opposite(d, u, t);
        ray_opposite(d, s, u);
        assert(on_ray(d, s, u) && on_ray(d, u, t));
    }
}

pub proof fn rook_symmetric(s: int, t: int, occ: Seq<bool>)
    ensures
        rook_reaches(s, t, occ) <==> rook_reaches(t, s, occ),
{
    assert forall|d: int, a: int, b: int| 0 <= d < 4 && #[trigger] slides(d, a, b, occ) implies slides(
        opposite(d),
        b,
        a,
        occ,
    ) by {
        slides_back(d, a, b, occ);
    }
}

pub proof fn bishop_symmetric(s: int, t: int, occ: Seq<bool>)
    ensures
        bishop_reaches(s, t, occ) <==> bishop_reaches(t, s, occ),
{
    assert forall|d: int, a: int, b: int| 4 <= d < 8 && #[trigger] slides(d, a, b, occ) implies slides(
        opposite(d),
        b,
        a,
        occ,
    ) by {
        slides_back(d, a, b, occ);
    }
}

pub proof fn leaper_symmetric(s: int, t: int)
    ensures
        knight_reaches(s, t) <==> knight_reaches(t, s),
        king_reaches(s, t) <==> king_reaches(t, s),
        pawn_reaches(true, s, t) <==> pawn_reaches(false, t, s),
{
}

/// `between` in one direction.
pub proof fn between_dir(d: int, s: int, t: int, u: int)
    requires
        on_ray(d, s, t),
    ensures
        between(s, t, u) <==> on_ray(d, s, u) && on_ray(d, u, t),
{
    if between(s, t, u) {
        let e = choose|e: int| #[trigger] on_ray(e, s, u) && on_ray(e, u, t);
        ray_trans(e, s, u, t);
        ray_unique(d, e, s, t);
    }
}

/// The squares between two squares do not depend on where one starts.
pub proof fn between_symmetric(s: int, t: int, u: int)
    ensures
        between(s, t, u) <==> between(t, s, u),
{
    between_back(s, t, u);
    between_back(t, s, u);
}

proof fn between_back(s: int, t: int, u: int)
    ensures
        between(s, t, u) ==> between(t, s, u),
{
    if between(s, t, u) {
        let d = choose|d: int| #[trigger] on_ray(d, s, u) && on_ray(d, u, t);
        ray_valid(d, s, u);
        ray_opposite(d, s, u);
        ray_opposite(d, u, t);
        assert(on_ray(opposite(d), t, u) && on_ray(opposite(d), u, s));
    }
}

} // verus!
